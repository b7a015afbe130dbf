//! Memory (RAM + swap) usage history.

use vstd::prelude::*;
use crate::platform::MemoryInfo;
use crate::ring_buffer::{RingBuffer, keep_last};
use crate::text::{format_bytes, format_bytes_spec};

verus! {

/// One usage reading: how much of a total is in use. The percentage that
/// charts show is computed from it when read.
#[derive(Debug, Clone, Copy, PartialEq, Eq)]
pub struct UsageSample {
    /// Used amount in bytes.
    pub used: u64,
    /// Total amount in bytes.
    pub total: u64,
}

/// Memory metrics with historical data.
#[derive(Debug, Clone)]
pub struct MemoryMetrics {
    /// RAM usage history.
    pub ram_history: RingBuffer<UsageSample>,
    /// Swap usage history.
    pub swap_history: RingBuffer<UsageSample>,
    /// Latest raw memory info snapshot.
    pub latest: MemoryInfo,
}

impl MemoryMetrics {
    /// Both histories are well formed and share one capacity.
    pub open spec fn wf(&self) -> bool {
        &&& self.ram_history.wf()
        &&& self.swap_history.wf()
        &&& self.ram_history.cap() == self.swap_history.cap()
    }

    /// Creates a tracker keeping `history_len` readings, with an all-zero
    /// latest snapshot.
    pub fn new(history_len: usize) -> (m: Self)
        requires
            history_len > 0,
        ensures
            m.wf(),
            m.ram_history.cap() == history_len,
            m.ram_history@ == Seq::<UsageSample>::empty(),
            m.swap_history@ == Seq::<UsageSample>::empty(),
            m.latest == (MemoryInfo { total: 0, used: 0, available: 0, swap_total: 0, swap_used: 0 }),
    {
        MemoryMetrics {
            ram_history: RingBuffer::new(history_len),
            swap_history: RingBuffer::new(history_len),
            latest: MemoryInfo { total: 0, used: 0, available: 0, swap_total: 0, swap_used: 0 },
        }
    }

    /// Records a snapshot: one RAM reading and one swap reading, and the
    /// snapshot itself as the latest.
    pub fn update(&mut self, info: &MemoryInfo)
        requires
            old(self).wf(),
        ensures
            final(self).wf(),
            final(self).ram_history.cap() == old(self).ram_history.cap(),
            final(self).ram_history@ == keep_last(
                old(self).ram_history@.push(UsageSample { used: info.used, total: info.total }),
                old(self).ram_history.cap(),
            ),
            final(self).swap_history@ == keep_last(
                old(self).swap_history@.push(UsageSample { used: info.swap_used, total: info.swap_total }),
                old(self).swap_history.cap(),
            ),
            final(self).latest == *info,
    {
        self.ram_history.push(UsageSample { used: info.used, total: info.total });
        self.swap_history.push(UsageSample { used: info.swap_used, total: info.swap_total });
        self.latest = *info;
    }

    /// Total RAM as a human-readable size (e.g. "16.0 GB").
    pub fn total_ram_display(&self) -> (s: String)
        ensures
            s@ == format_bytes_spec(self.latest.total as nat),
    {
        format_bytes(self.latest.total)
    }

    /// Used RAM as a human-readable size.
    pub fn used_ram_display(&self) -> (s: String)
        ensures
            s@ == format_bytes_spec(self.latest.used as nat),
    {
        format_bytes(self.latest.used)
    }

    /// Total swap as a human-readable size.
    pub fn total_swap_display(&self) -> (s: String)
        ensures
            s@ == format_bytes_spec(self.latest.swap_total as nat),
    {
        format_bytes(self.latest.swap_total)
    }

    /// Used swap as a human-readable size.
    pub fn used_swap_display(&self) -> (s: String)
        ensures
            s@ == format_bytes_spec(self.latest.swap_used as nat),
    {
        format_bytes(self.latest.swap_used)
    }
}

} // verus!
