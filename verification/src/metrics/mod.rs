//! Metrics bookkeeping: per-subsystem history and display text.

pub mod disk;
pub mod memory;
pub mod network;

use vstd::prelude::*;
use crate::text::{decimal, push_decimal};

verus! {

/// Uptime text: "Xd Xh Xm" from one day on, "Xh Xm Xs" from one hour on,
/// and "Xm Xs" below that.
pub open spec fn uptime_text(secs: nat) -> Seq<char> {
    let days = secs / 86400;
    let hours = (secs % 86400) / 3600;
    let minutes = (secs % 3600) / 60;
    let seconds = secs % 60;
    if days > 0 {
        decimal(days) + seq!['d', ' '] + decimal(hours) + seq!['h', ' '] + decimal(minutes) + seq!['m']
    } else if hours > 0 {
        decimal(hours) + seq!['h', ' '] + decimal(minutes) + seq!['m', ' '] + decimal(seconds) + seq!['s']
    } else {
        decimal(minutes) + seq!['m', ' '] + decimal(seconds) + seq!['s']
    }
}

/// Formats an uptime in seconds as "Xd Xh Xm", "Xh Xm Xs" or "Xm Xs".
pub fn uptime_display(uptime_secs: u64) -> (r: String)
    ensures
        r@ == uptime_text(uptime_secs as nat),
{
    let s = uptime_secs;
    let days = s / 86400;
    let hours = (s % 86400) / 3600;
    let minutes = (s % 3600) / 60;
    let seconds = s % 60;
    let mut r = String::new();
    if days > 0 {
        push_decimal(&mut r, days);
        r.push('d');
        r.push(' ');
        push_decimal(&mut r, hours);
        r.push('h');
        r.push(' ');
        push_decimal(&mut r, minutes);
        r.push('m');
    } else if hours > 0 {
        push_decimal(&mut r, hours);
        r.push('h');
        r.push(' ');
        push_decimal(&mut r, minutes);
        r.push('m');
        r.push(' ');
        push_decimal(&mut r, seconds);
        r.push('s');
    } else {
        push_decimal(&mut r, minutes);
        r.push('m');
        r.push(' ');
        push_decimal(&mut r, seconds);
        r.push('s');
    }
    assert(r@ =~= uptime_text(uptime_secs as nat));
    r
}

} // verus!
