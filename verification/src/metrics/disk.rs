//! Disk usage per mount point, with history.

use vstd::prelude::*;
use crate::metrics::memory::UsageSample;
use crate::platform::DiskInfo;
use crate::ring_buffer::{RingBuffer, keep_last, lemma_keep_last_push};
use crate::text::{format_bytes, format_bytes_spec};

verus! {

/// The abstract state of one tracked mount point.
pub ghost struct MountView {
    pub point: Seq<char>,
    pub name: Seq<char>,
    pub fs_type: Seq<char>,
    pub history: Seq<UsageSample>,
    pub cap: nat,
    pub total: u64,
    pub used: u64,
    pub available: u64,
}

/// The usage reading a disk snapshot gives.
pub open spec fn disk_sample(d: DiskInfo) -> UsageSample {
    UsageSample { used: d.used, total: d.total }
}

/// A mount point seen for the first time: its names and sizes from the
/// snapshot, and that snapshot's reading as its only history.
pub open spec fn fresh_mount(d: DiskInfo, cap: nat) -> MountView {
    MountView {
        point: d.mount_point@,
        name: d.name@,
        fs_type: d.fs_type@,
        history: seq![disk_sample(d)],
        cap: cap,
        total: d.total,
        used: d.used,
        available: d.available,
    }
}

/// A known mount point after another snapshot: new sizes, one more reading.
pub open spec fn record_mount(m: MountView, d: DiskInfo) -> MountView {
    MountView {
        history: keep_last(m.history.push(disk_sample(d)), m.cap),
        total: d.total,
        used: d.used,
        available: d.available,
        ..m
    }
}

/// Whether some tracked mount has mount point `p`.
pub open spec fn has_point(ms: Seq<MountView>, p: Seq<char>) -> bool {
    exists|i: int| 0 <= i < ms.len() && (#[trigger] ms[i]).point == p
}

/// One snapshot applied: the mount with the same mount point records it,
/// or a new mount is appended.
pub open spec fn apply_disk(ms: Seq<MountView>, d: DiskInfo, cap: nat) -> Seq<MountView> {
    if has_point(ms, d.mount_point@) {
        let i = choose|i: int| 0 <= i < ms.len() && (#[trigger] ms[i]).point == d.mount_point@;
        ms.update(i, record_mount(ms[i], d))
    } else {
        ms.push(fresh_mount(d, cap))
    }
}

/// All snapshots applied in order.
pub open spec fn apply_disks(ms: Seq<MountView>, ds: Seq<DiskInfo>, cap: nat) -> Seq<MountView>
    decreases ds.len(),
{
    if ds.len() == 0 {
        ms
    } else {
        apply_disk(apply_disks(ms, ds.drop_last(), cap), ds.last(), cap)
    }
}

/// Whether some snapshot has mount point `p`.
pub open spec fn disks_have_point(ds: Seq<DiskInfo>, p: Seq<char>) -> bool {
    exists|j: int| 0 <= j < ds.len() && (#[trigger] ds[j]).mount_point@ == p
}

/// The mounts whose mount point some snapshot names, in their order.
pub open spec fn keep_listed(ms: Seq<MountView>, ds: Seq<DiskInfo>) -> Seq<MountView>
    decreases ms.len(),
{
    if ms.len() == 0 {
        ms
    } else if disks_have_point(ds, ms.last().point) {
        keep_listed(ms.drop_last(), ds).push(ms.last())
    } else {
        keep_listed(ms.drop_last(), ds)
    }
}

/// No two mounts share a mount point.
pub open spec fn distinct_points(ms: Seq<MountView>) -> bool {
    forall|i: int, j: int| 0 <= i < j < ms.len() ==> (#[trigger] ms[i]).point != (#[trigger] ms[j]).point
}

/// Metrics for a single mount point.
#[derive(Debug, Clone)]
pub struct MountMetrics {
    /// Mount point path.
    pub mount_point: String,
    /// Device/disk name.
    pub name: String,
    /// File system type.
    pub fs_type: String,
    /// Usage readings, oldest first.
    pub usage_history: RingBuffer<UsageSample>,
    /// Total space in bytes, from the latest snapshot.
    pub total: u64,
    /// Used space in bytes, from the latest snapshot.
    pub used: u64,
    /// Available space in bytes, from the latest snapshot.
    pub available: u64,
}

impl MountMetrics {
    /// The mount's abstract state.
    pub open spec fn model(&self) -> MountView {
        MountView {
            point: self.mount_point@,
            name: self.name@,
            fs_type: self.fs_type@,
            history: self.usage_history@,
            cap: self.usage_history.cap(),
            total: self.total,
            used: self.used,
            available: self.available,
        }
    }

    fn new(info: &DiskInfo, history_len: usize) -> (m: Self)
        requires
            history_len > 0,
        ensures
            m.usage_history.wf(),
            m.model() == fresh_mount(*info, history_len as nat),
    {
        let mut m = MountMetrics {
            mount_point: info.mount_point.clone(),
            name: info.name.clone(),
            fs_type: info.fs_type.clone(),
            usage_history: RingBuffer::new(history_len),
            total: info.total,
            used: info.used,
            available: info.available,
        };
        m.record_usage(info);
        assert(m.usage_history@ =~= seq![disk_sample(*info)]);
        m
    }

    fn record_usage(&mut self, info: &DiskInfo)
        requires
            old(self).usage_history.wf(),
        ensures
            final(self).usage_history.wf(),
            final(self).model() == record_mount(old(self).model(), *info),
    {
        self.total = info.total;
        self.used = info.used;
        self.available = info.available;
        self.usage_history.push(UsageSample { used: info.used, total: info.total });
    }

    /// Human-readable total size.
    pub fn total_display(&self) -> (s: String)
        ensures
            s@ == format_bytes_spec(self.total as nat),
    {
        format_bytes(self.total)
    }

    /// Human-readable used size.
    pub fn used_display(&self) -> (s: String)
        ensures
            s@ == format_bytes_spec(self.used as nat),
    {
        format_bytes(self.used)
    }

    /// Human-readable available size.
    pub fn available_display(&self) -> (s: String)
        ensures
            s@ == format_bytes_spec(self.available as nat),
    {
        format_bytes(self.available)
    }
}

/// The abstract state of a list of mounts.
pub open spec fn mounts_model(ms: Seq<MountMetrics>) -> Seq<MountView> {
    ms.map_values(|m: MountMetrics| m.model())
}

/// Per-mount disk usage with history.
#[derive(Debug, Clone)]
pub struct DiskMetrics {
    /// Per-mount usage info.
    pub mounts: Vec<MountMetrics>,
    /// History buffer capacity.
    history_len: usize,
}

impl DiskMetrics {
    /// The abstract state of the tracked mounts, in order.
    pub closed spec fn views(&self) -> Seq<MountView> {
        mounts_model(self.mounts@)
    }

    /// The capacity new mounts' histories get.
    pub closed spec fn history_capacity(&self) -> nat {
        self.history_len as nat
    }

    /// Every history is well formed with the tracker's capacity, and no two
    /// mounts share a mount point.
    pub closed spec fn wf(&self) -> bool {
        &&& forall|i: int| 0 <= i < self.mounts@.len() ==> {
            &&& (#[trigger] self.mounts@[i]).usage_history.wf()
            &&& self.mounts@[i].usage_history.cap() == self.history_capacity()
        }
        &&& distinct_points(mounts_model(self.mounts@))
    }

    /// A well-formed tracker's mounts have distinct mount points and
    /// positive history capacities equal to the tracker's.
    pub proof fn lemma_wf_facts(&self)
        requires
            self.wf(),
        ensures
            distinct_points(self.views()),
            positive_caps(self.views()),
            forall|i: int| 0 <= i < self.views().len() ==> (#[trigger] self.views()[i]).cap == self.history_capacity(),
    {
        assert forall|i: int| 0 <= i < self.views().len() implies (#[trigger] self.views()[i]).cap > 0 by {
            self.mounts@[i].usage_history.lemma_len_at_most_capacity();
        }
    }

    /// The number of tracked mounts.
    pub fn mount_count(&self) -> (n: usize)
        ensures
            n == self.views().len(),
    {
        self.mounts.len()
    }

    /// The `i`-th tracked mount.
    pub fn mount(&self, i: usize) -> (r: &MountMetrics)
        requires
            i < self.views().len(),
        ensures
            r.model() == self.views()[i as int],
            self.wf() ==> r.usage_history.wf(),
    {
        &self.mounts[i]
    }

    /// Creates a tracker with no mounts, whose histories will keep
    /// `history_len` readings.
    pub fn new(history_len: usize) -> (d: Self)
        ensures
            d.wf(),
            d.views() == Seq::<MountView>::empty(),
            d.history_capacity() == history_len,
    {
        let d = DiskMetrics { mounts: Vec::new(), history_len };
        assert(mounts_model(d.mounts@) =~= Seq::<MountView>::empty());
        d
    }
}

/// `ds[j]` is the last snapshot with mount point `p`.
pub open spec fn is_last_for(ds: Seq<DiskInfo>, j: int, p: Seq<char>) -> bool {
    &&& 0 <= j < ds.len()
    &&& ds[j].mount_point@ == p
    &&& forall|k: int| j < k < ds.len() ==> (#[trigger] ds[k]).mount_point@ != p
}

/// The mount shows snapshot `d`: its newest reading and its sizes are `d`'s.
pub open spec fn reflects(m: MountView, d: DiskInfo) -> bool {
    &&& m.history.len() > 0
    &&& m.history.last() == disk_sample(d)
    &&& m.total == d.total
    &&& m.used == d.used
    &&& m.available == d.available
}

/// Every mount shows the last snapshot with its mount point.
pub open spec fn shows_last_snapshots(ms: Seq<MountView>, ds: Seq<DiskInfo>) -> bool {
    forall|k: int| 0 <= k < ms.len() ==> exists|j: int| #![trigger ds[j]]
        is_last_for(ds, j, (#[trigger] ms[k]).point) && reflects(ms[k], ds[j])
}

/// The mount's newest reading is the used and total space of the last
/// snapshot for its mount point, and its sizes are that snapshot's.
pub open spec fn holds_last_reading(m: MountView, ds: Seq<DiskInfo>) -> bool {
    exists|j: int| #![trigger ds[j]] {
        &&& is_last_for(ds, j, m.point)
        &&& m.history.len() > 0
        &&& m.history.last().used == ds[j].used
        &&& m.history.last().total == ds[j].total
        &&& m.total == ds[j].total
        &&& m.used == ds[j].used
        &&& m.available == ds[j].available
    }
}

/// When every mount shows the last snapshot for its mount point, each
/// mount's newest reading is that snapshot's used space over its total
/// space (not the available space), and its sizes are the snapshot's.
pub proof fn lemma_newest_readings(ms: Seq<MountView>, ds: Seq<DiskInfo>)
    requires
        shows_last_snapshots(ms, ds),
    ensures
        forall|k: int| 0 <= k < ms.len() ==> holds_last_reading(#[trigger] ms[k], ds),
{
    assert forall|k: int| 0 <= k < ms.len() implies holds_last_reading(#[trigger] ms[k], ds) by {
        let j = choose|j: int| #![trigger ds[j]] is_last_for(ds, j, ms[k].point) && reflects(ms[k], ds[j]);
        assert(is_last_for(ds, j, ms[k].point) && reflects(ms[k], ds[j]));
    }
}

/// Every history capacity is positive.
pub open spec fn positive_caps(ms: Seq<MountView>) -> bool {
    forall|i: int| 0 <= i < ms.len() ==> (#[trigger] ms[i]).cap > 0
}

proof fn lemma_apply_disks(ms: Seq<MountView>, ds: Seq<DiskInfo>, cap: nat)
    requires
        distinct_points(ms),
        positive_caps(ms),
        cap > 0 || ds.len() == 0,
    ensures
        distinct_points(apply_disks(ms, ds, cap)),
        positive_caps(apply_disks(ms, ds, cap)),
        forall|p: Seq<char>| has_point(apply_disks(ms, ds, cap), p)
            <==> (has_point(ms, p) || disks_have_point(ds, p)),
        forall|k: int| 0 <= k < apply_disks(ms, ds, cap).len()
            && disks_have_point(ds, (#[trigger] apply_disks(ms, ds, cap)[k]).point)
            ==> exists|j: int| is_last_for(ds, j, apply_disks(ms, ds, cap)[k].point)
                && reflects(apply_disks(ms, ds, cap)[k], ds[j]),
    decreases ds.len(),
{
    if ds.len() > 0 {
        let init = ds.drop_last();
        let d = ds.last();
        let q = d.mount_point@;
        lemma_apply_disks(ms, init, cap);
        let prev = apply_disks(ms, init, cap);
        let r = apply_disks(ms, ds, cap);
        assert(r == apply_disk(prev, d, cap));
        assert(ds[ds.len() - 1] == d);
        if has_point(prev, q) {
            let i = choose|i: int| 0 <= i < prev.len() && (#[trigger] prev[i]).point == q;
            lemma_keep_last_push(prev[i].history, disk_sample(d), prev[i].cap);
            assert(r == prev.update(i, record_mount(prev[i], d)));
            assert forall|a: int, b: int| 0 <= a < b < r.len() implies (#[trigger] r[a]).point != (#[trigger] r[b]).point by {
                assert(prev[a].point != prev[b].point);
            }
            assert forall|p: Seq<char>| has_point(r, p) <==> (has_point(ms, p) || disks_have_point(ds, p)) by {
                if has_point(r, p) {
                    let x = choose|x: int| 0 <= x < r.len() && (#[trigger] r[x]).point == p;
                    assert(prev[x].point == p);
                    if disks_have_point(init, p) {
                        let y = choose|y: int| 0 <= y < init.len() && (#[trigger] init[y]).mount_point@ == p;
                        assert(ds[y] == init[y]);
                    }
                }
                if has_point(ms, p) || disks_have_point(ds, p) {
                    if disks_have_point(ds, p) && !has_point(ms, p) {
                        let y = choose|y: int| 0 <= y < ds.len() && (#[trigger] ds[y]).mount_point@ == p;
                        if y < init.len() {
                            assert(init[y] == ds[y]);
                        } else {
                            assert(r[i].point == p);
                        }
                    }
                    assert(has_point(prev, p));
                    let x = choose|x: int| 0 <= x < prev.len() && (#[trigger] prev[x]).point == p;
                    assert(r[x].point == p);
                }
            }
            assert forall|k: int| 0 <= k < r.len() && disks_have_point(ds, (#[trigger] r[k]).point)
                implies exists|j: int| is_last_for(ds, j, r[k].point) && reflects(r[k], ds[j]) by {
                if k == i {
                    assert(is_last_for(ds, ds.len() - 1, r[k].point));
                } else {
                    let p = r[k].point;
                    assert(prev[k] == r[k]);
                    assert(p != q);
                    let y = choose|y: int| 0 <= y < ds.len() && (#[trigger] ds[y]).mount_point@ == p;
                    assert(y < init.len());
                    assert(init[y] == ds[y]);
                    assert(disks_have_point(init, p));
                    let j = choose|j: int| is_last_for(init, j, prev[k].point) && reflects(prev[k], init[j]);
                    assert(init[j] == ds[j]);
                    assert forall|z: int| j < z < ds.len() implies (#[trigger] ds[z]).mount_point@ != p by {
                        if z < init.len() {
                            assert(init[z] == ds[z]);
                        }
                    }
                    assert(is_last_for(ds, j, p));
                }
            }
        } else {
            assert(r == prev.push(fresh_mount(d, cap)));
            assert(seq![disk_sample(d)].last() == disk_sample(d));
            assert forall|a: int, b: int| 0 <= a < b < r.len() implies (#[trigger] r[a]).point != (#[trigger] r[b]).point by {
                if b == prev.len() {
                    assert(prev[a].point != q);
                } else {
                    assert(prev[a].point != prev[b].point);
                }
            }
            assert forall|p: Seq<char>| has_point(r, p) <==> (has_point(ms, p) || disks_have_point(ds, p)) by {
                if has_point(r, p) {
                    let x = choose|x: int| 0 <= x < r.len() && (#[trigger] r[x]).point == p;
                    if x == prev.len() {
                        assert(ds[ds.len() - 1].mount_point@ == p);
                    } else {
                        assert(prev[x].point == p);
                        if disks_have_point(init, p) {
                            let y = choose|y: int| 0 <= y < init.len() && (#[trigger] init[y]).mount_point@ == p;
                            assert(ds[y] == init[y]);
                        }
                    }
                }
                if has_point(ms, p) || disks_have_point(ds, p) {
                    if p == q {
                        assert(r[prev.len() as int].point == p);
                    } else {
                        if disks_have_point(ds, p) && !has_point(ms, p) {
                            let y = choose|y: int| 0 <= y < ds.len() && (#[trigger] ds[y]).mount_point@ == p;
                            assert(init[y] == ds[y]);
                        }
                        let x = choose|x: int| 0 <= x < prev.len() && (#[trigger] prev[x]).point == p;
                        assert(r[x].point == p);
                    }
                }
            }
            assert forall|k: int| 0 <= k < r.len() && disks_have_point(ds, (#[trigger] r[k]).point)
                implies exists|j: int| is_last_for(ds, j, r[k].point) && reflects(r[k], ds[j]) by {
                if k == prev.len() {
                    assert(is_last_for(ds, ds.len() - 1, r[k].point));
                } else {
                    let p = r[k].point;
                    assert(prev[k] == r[k]);
                    assert(p != q);
                    let y = choose|y: int| 0 <= y < ds.len() && (#[trigger] ds[y]).mount_point@ == p;
                    assert(y < init.len());
                    assert(init[y] == ds[y]);
                    assert(disks_have_point(init, p));
                    let j = choose|j: int| is_last_for(init, j, prev[k].point) && reflects(prev[k], init[j]);
                    assert(init[j] == ds[j]);
                    assert forall|z: int| j < z < ds.len() implies (#[trigger] ds[z]).mount_point@ != p by {
                        if z < init.len() {
                            assert(init[z] == ds[z]);
                        }
                    }
                    assert(is_last_for(ds, j, p));
                }
            }
        }
    }
}

fn find_mount(mounts: &Vec<MountMetrics>, point: &String) -> (r: Option<usize>)
    ensures
        match r {
            Some(i) => i < mounts@.len() && mounts@[i as int].mount_point@ == point@,
            None => !has_point(mounts_model(mounts@), point@),
        },
{
    let mut i: usize = 0;
    while i < mounts.len()
        invariant
            i <= mounts@.len(),
            forall|j: int| 0 <= j < i ==> (#[trigger] mounts@[j]).mount_point@ != point@,
        decreases mounts@.len() - i,
    {
        if mounts[i].mount_point == *point {
            return Some(i);
        }
        i = i + 1;
    }
    proof {
        let ms = mounts_model(mounts@);
        assert forall|j: int| 0 <= j < ms.len() implies (#[trigger] ms[j]).point != point@ by {
            assert(mounts@[j].mount_point@ != point@);
        }
    }
    None
}

fn disks_contain(disks: &[DiskInfo], point: &String) -> (b: bool)
    ensures
        b == disks_have_point(disks@, point@),
{
    let mut j: usize = 0;
    while j < disks.len()
        invariant
            j <= disks@.len(),
            forall|k: int| 0 <= k < j ==> (#[trigger] disks@[k]).mount_point@ != point@,
        decreases disks@.len() - j,
    {
        if disks[j].mount_point == *point {
            return true;
        }
        j = j + 1;
    }
    false
}

/// Every mount that `keep_listed` keeps is one of the mounts it was given.
proof fn lemma_keep_listed_from(ms: Seq<MountView>, ds: Seq<DiskInfo>, k: int)
    requires
        0 <= k < keep_listed(ms, ds).len(),
    ensures
        exists|i: int| 0 <= i < ms.len() && ms[i] == keep_listed(ms, ds)[k],
    decreases ms.len(),
{
    if ms.len() > 0 {
        let rest = keep_listed(ms.drop_last(), ds);
        if disks_have_point(ds, ms.last().point) && k == rest.len() {
            assert(ms[ms.len() - 1] == keep_listed(ms, ds)[k]);
        } else {
            lemma_keep_listed_from(ms.drop_last(), ds, k);
            let i = choose|i: int| 0 <= i < ms.drop_last().len() && ms.drop_last()[i] == rest[k];
            assert(ms[i] == keep_listed(ms, ds)[k]);
        }
    }
}

proof fn lemma_keep_listed_has_point(ms: Seq<MountView>, ds: Seq<DiskInfo>, p: Seq<char>)
    ensures
        has_point(keep_listed(ms, ds), p) <==> (has_point(ms, p) && disks_have_point(ds, p)),
    decreases ms.len(),
{
    if ms.len() > 0 {
        let init = ms.drop_last();
        let r = keep_listed(ms, ds);
        let rest = keep_listed(init, ds);
        lemma_keep_listed_has_point(init, ds, p);
        if has_point(r, p) {
            let x = choose|x: int| 0 <= x < r.len() && (#[trigger] r[x]).point == p;
            lemma_keep_listed_from(ms, ds, x);
            let i = choose|i: int| 0 <= i < ms.len() && ms[i] == r[x];
            assert(ms[i].point == p);
            if disks_have_point(ds, ms.last().point) {
                if x < rest.len() {
                    assert(rest[x] == r[x]);
                }
            } else {
                assert(rest[x] == r[x]);
            }
        }
        if has_point(ms, p) && disks_have_point(ds, p) {
            let i = choose|i: int| 0 <= i < ms.len() && (#[trigger] ms[i]).point == p;
            if i == ms.len() - 1 {
                assert(r[rest.len() as int].point == p);
            } else {
                assert(init[i].point == p);
                let x = choose|x: int| 0 <= x < rest.len() && (#[trigger] rest[x]).point == p;
                assert(r[x] == rest[x]);
            }
        }
    }
}

proof fn lemma_keep_listed_distinct(ms: Seq<MountView>, ds: Seq<DiskInfo>)
    requires
        distinct_points(ms),
    ensures
        distinct_points(keep_listed(ms, ds)),
    decreases ms.len(),
{
    if ms.len() > 0 {
        let init = ms.drop_last();
        assert(distinct_points(init));
        lemma_keep_listed_distinct(init, ds);
        if disks_have_point(ds, ms.last().point) {
            let rest = keep_listed(init, ds);
            let r = keep_listed(ms, ds);
            assert forall|a: int, b: int| 0 <= a < b < r.len() implies (#[trigger] r[a]).point != (#[trigger] r[b]).point by {
                if b == rest.len() {
                    lemma_keep_listed_from(init, ds, a);
                    let i = choose|i: int| 0 <= i < init.len() && init[i] == rest[a];
                    assert(ms[i] == r[a]);
                    assert(ms[ms.len() - 1] == r[b]);
                }
            }
        }
    }
}

/// No two snapshots share a mount point.
pub open spec fn distinct_snapshots(ds: Seq<DiskInfo>) -> bool {
    forall|i: int, j: int| 0 <= i < j < ds.len() ==> (#[trigger] ds[i]).mount_point@ != (#[trigger] ds[j]).mount_point@
}

/// The last snapshot with mount point `p`, if any.
pub open spec fn last_snapshot_for(ds: Seq<DiskInfo>, p: Seq<char>) -> Option<DiskInfo>
    decreases ds.len(),
{
    if ds.len() == 0 {
        None
    } else if ds.last().mount_point@ == p {
        Some(ds.last())
    } else {
        last_snapshot_for(ds.drop_last(), p)
    }
}

/// The tracked mounts, each having recorded its snapshot if there is one,
/// in their order.
pub open spec fn recorded_mounts(ms: Seq<MountView>, ds: Seq<DiskInfo>) -> Seq<MountView> {
    Seq::new(ms.len(), |i: int| match last_snapshot_for(ds, ms[i].point) {
        Some(d) => record_mount(ms[i], d),
        None => ms[i],
    })
}

/// A fresh mount for each snapshot whose mount point is not tracked, in
/// snapshot order.
pub open spec fn new_mounts(ms: Seq<MountView>, ds: Seq<DiskInfo>, cap: nat) -> Seq<MountView>
    decreases ds.len(),
{
    if ds.len() == 0 {
        Seq::empty()
    } else if has_point(ms, ds.last().mount_point@) {
        new_mounts(ms, ds.drop_last(), cap)
    } else {
        new_mounts(ms, ds.drop_last(), cap).push(fresh_mount(ds.last(), cap))
    }
}

proof fn lemma_no_snapshot_for(ds: Seq<DiskInfo>, p: Seq<char>)
    requires
        !disks_have_point(ds, p),
    ensures
        last_snapshot_for(ds, p) is None,
    decreases ds.len(),
{
    if ds.len() > 0 {
        assert(ds[ds.len() - 1] == ds.last());
        assert forall|j: int| 0 <= j < ds.drop_last().len() implies (#[trigger] ds.drop_last()[j]).mount_point@ != p by {
            assert(ds[j] == ds.drop_last()[j]);
        }
        lemma_no_snapshot_for(ds.drop_last(), p);
    }
}

proof fn lemma_disks_explicit(ms: Seq<MountView>, ds: Seq<DiskInfo>, cap: nat)
    requires
        distinct_points(ms),
        positive_caps(ms),
        distinct_snapshots(ds),
        cap > 0 || ds.len() == 0,
    ensures
        apply_disks(ms, ds, cap) == recorded_mounts(ms, ds) + new_mounts(ms, ds, cap),
        forall|k: int| 0 <= k < new_mounts(ms, ds, cap).len()
            ==> disks_have_point(ds, (#[trigger] new_mounts(ms, ds, cap)[k]).point),
    decreases ds.len(),
{
    if ds.len() == 0 {
        assert(recorded_mounts(ms, ds) =~= ms);
        assert(apply_disks(ms, ds, cap) =~= recorded_mounts(ms, ds) + new_mounts(ms, ds, cap));
    } else {
        let init = ds.drop_last();
        let x = ds.last();
        let q = x.mount_point@;
        assert(distinct_snapshots(init)) by {
            assert forall|i: int, j: int| 0 <= i < j < init.len() implies
                (#[trigger] init[i]).mount_point@ != (#[trigger] init[j]).mount_point@ by {
                assert(init[i] == ds[i] && init[j] == ds[j]);
            }
        }
        lemma_disks_explicit(ms, init, cap);
        lemma_apply_disks(ms, init, cap);
        let a = apply_disks(ms, init, cap);
        let r0 = recorded_mounts(ms, init);
        let r1 = recorded_mounts(ms, ds);
        assert(ds[ds.len() - 1] == x);
        assert(!disks_have_point(init, q)) by {
            if disks_have_point(init, q) {
                let j = choose|j: int| 0 <= j < init.len() && (#[trigger] init[j]).mount_point@ == q;
                assert(ds[j] == init[j]);
            }
        }
        lemma_no_snapshot_for(init, q);
        assert(last_snapshot_for(ds, q) == Some(x));
        assert(apply_disks(ms, ds, cap) == apply_disk(a, x, cap));
        let n0 = new_mounts(ms, init, cap);
        let n1 = new_mounts(ms, ds, cap);
        if has_point(ms, q) {
            let i0 = choose|i: int| 0 <= i < ms.len() && (#[trigger] ms[i]).point == q;
            assert(a[i0] == r0[i0]);
            assert(r0[i0] == ms[i0]);
            assert(has_point(a, q));
            let i = choose|i: int| 0 <= i < a.len() && (#[trigger] a[i]).point == q;
            assert(a[i0].point == q);
            assert(i == i0);
            assert(n1 == n0);
            assert forall|k: int| 0 <= k < ms.len() implies #[trigger] r1[k] == if k == i0 {
                record_mount(ms[i0], x)
            } else {
                r0[k]
            } by {
                if k != i0 {
                    assert(ms[k].point != q);
                }
            }
            assert(apply_disks(ms, ds, cap) =~= r1 + n1);
        } else {
            assert(!has_point(a, q));
            assert forall|k: int| 0 <= k < ms.len() implies #[trigger] r1[k] == r0[k] by {
                assert(ms[k].point != q);
            }
            assert(r1 =~= r0);
            assert(n1 == n0.push(fresh_mount(x, cap)));
            assert(apply_disks(ms, ds, cap) =~= r1 + n1);
        }
        assert forall|k: int| 0 <= k < n1.len() implies disks_have_point(ds, (#[trigger] n1[k]).point) by {
            if k < n0.len() {
                assert(n1[k] == n0[k]);
                let j = choose|j: int| 0 <= j < init.len() && (#[trigger] init[j]).mount_point@ == n0[k].point;
                assert(ds[j] == init[j]);
            } else {
                assert(n1[k].point == q);
            }
        }
    }
}

proof fn lemma_keep_listed_concat(a: Seq<MountView>, b: Seq<MountView>, ds: Seq<DiskInfo>)
    ensures
        keep_listed(a + b, ds) == keep_listed(a, ds) + keep_listed(b, ds),
    decreases b.len(),
{
    if b.len() == 0 {
        assert(a + b =~= a);
        assert(keep_listed(a, ds) + keep_listed(b, ds) =~= keep_listed(a, ds));
    } else {
        lemma_keep_listed_concat(a, b.drop_last(), ds);
        assert((a + b).drop_last() =~= a + b.drop_last());
        assert((a + b).last() == b.last());
        if disks_have_point(ds, b.last().point) {
            assert(keep_listed(a, ds) + keep_listed(b, ds)
                =~= (keep_listed(a, ds) + keep_listed(b.drop_last(), ds)).push(b.last()));
        }
    }
}

proof fn lemma_keep_listed_all(b: Seq<MountView>, ds: Seq<DiskInfo>)
    requires
        forall|k: int| 0 <= k < b.len() ==> disks_have_point(ds, (#[trigger] b[k]).point),
    ensures
        keep_listed(b, ds) == b,
    decreases b.len(),
{
    if b.len() > 0 {
        assert(b[b.len() - 1] == b.last());
        assert forall|k: int| 0 <= k < b.drop_last().len() implies disks_have_point(ds, (#[trigger] b.drop_last()[k]).point) by {
            assert(b.drop_last()[k] == b[k]);
        }
        lemma_keep_listed_all(b.drop_last(), ds);
        assert(b.drop_last().push(b.last()) =~= b);
    }
}

/// With distinct snapshots, a disk update in explicit form: the tracked
/// mounts that a snapshot names stay, in their old order, each having
/// recorded exactly one reading from its snapshot; they are followed by one
/// fresh mount per new mount point, in snapshot order. Mounts no snapshot
/// names are dropped.
pub proof fn lemma_disk_update_explicit(ms: Seq<MountView>, ds: Seq<DiskInfo>, cap: nat)
    requires
        distinct_points(ms),
        positive_caps(ms),
        distinct_snapshots(ds),
        cap > 0 || ds.len() == 0,
    ensures
        keep_listed(apply_disks(ms, ds, cap), ds)
            == keep_listed(recorded_mounts(ms, ds), ds) + new_mounts(ms, ds, cap),
{
    lemma_disks_explicit(ms, ds, cap);
    lemma_keep_listed_concat(recorded_mounts(ms, ds), new_mounts(ms, ds, cap), ds);
    lemma_keep_listed_all(new_mounts(ms, ds, cap), ds);
}

impl DiskMetrics {
    /// Records a set of disk snapshots: each snapshot updates the mount with
    /// its mount point, or starts tracking a new one; afterwards, mounts that
    /// no snapshot names are dropped.
    pub fn update(&mut self, disks: &[DiskInfo])
        requires
            old(self).wf(),
            old(self).history_capacity() > 0 || disks@.len() == 0,
        ensures
            final(self).wf(),
            final(self).history_capacity() == old(self).history_capacity(),
            final(self).views() == keep_listed(
                apply_disks(old(self).views(), disks@, old(self).history_capacity()),
                disks@,
            ),
            forall|p: Seq<char>| has_point(final(self).views(), p) <==> disks_have_point(disks@, p),
            shows_last_snapshots(final(self).views(), disks@),
            forall|k: int| 0 <= k < final(self).views().len()
                ==> holds_last_reading(#[trigger] final(self).views()[k], disks@),
    {
        proof {
            let v = self.views();
            assert forall|x: int| 0 <= x < v.len() implies (#[trigger] v[x]).cap > 0 by {
                self.mounts@[x].usage_history.lemma_len_at_most_capacity();
            }
            lemma_apply_disks(v, disks@, self.history_capacity());
        }
        let ghost cap = self.history_capacity();
        let n = disks.len();
        let mut i: usize = 0;
        while i < n
            invariant
                n == disks@.len(),
                i <= n,
                self.wf(),
                self.history_capacity() == cap,
                cap > 0 || n == 0,
                self.views() == apply_disks(old(self).views(), disks@.take(i as int), cap),
            decreases n - i,
        {
            let ghost before = self.views();
            let info = &disks[i];
            match find_mount(&self.mounts, &info.mount_point) {
                Some(j) => {
                    assert(self.mounts@[j as int].usage_history.wf());
                    self.mounts[j].record_usage(info);
                    proof {
                        assert(before[j as int].point == info.mount_point@);
                        assert(has_point(before, info.mount_point@));
                        let c = choose|c: int| 0 <= c < before.len() && (#[trigger] before[c]).point == info.mount_point@;
                        assert(c == j);
                        assert(self.views() =~= before.update(j as int, record_mount(before[j as int], *info)));
                    }
                }
                None => {
                    let m = MountMetrics::new(info, self.history_len);
                    self.mounts.push(m);
                    proof {
                        assert(self.views() =~= before.push(fresh_mount(*info, cap)));
                    }
                }
            }
            proof {
                assert(disks@.take(i + 1).drop_last() =~= disks@.take(i as int));
                assert(disks@.take(i + 1).last() == disks@[i as int]);
            }
            i = i + 1;
        }
        assert(disks@.take(n as int) =~= disks@);
        let ghost orig = self.views();
        let mut k: usize = 0;
        let ghost mut c: int = 0;
        while k < self.mounts.len()
            invariant
                0 <= c <= orig.len(),
                k == keep_listed(orig.take(c), disks@).len(),
                self.views() == keep_listed(orig.take(c), disks@) + orig.skip(c),
                self.history_capacity() == cap,
                forall|x: int| 0 <= x < self.mounts@.len() ==> {
                    &&& (#[trigger] self.mounts@[x]).usage_history.wf()
                    &&& self.mounts@[x].usage_history.cap() == cap
                },
            decreases self.mounts@.len() - k,
        {
            proof {
                assert(orig.take(c + 1).drop_last() =~= orig.take(c));
                assert(orig.take(c + 1).last() == orig[c]);
                assert(self.views()[k as int] == orig[c]);
            }
            if disks_contain(disks, &self.mounts[k].mount_point) {
                k = k + 1;
                proof {
                    assert(self.views() =~= keep_listed(orig.take(c + 1), disks@) + orig.skip(c + 1));
                }
            } else {
                let ghost before = self.mounts@;
                let _ = self.mounts.remove(k);
                proof {
                    let prev = keep_listed(orig.take(c), disks@) + orig.skip(c);
                    assert(mounts_model(before) == prev);
                    assert(!disks_have_point(disks@, orig[c].point));
                    assert(keep_listed(orig.take(c + 1), disks@) == keep_listed(orig.take(c), disks@));
                    assert(self.views() =~= prev.remove(k as int));
                    assert(self.views() =~= keep_listed(orig.take(c + 1), disks@) + orig.skip(c + 1));
                }
            }
            proof {
                c = c + 1;
            }
        }
        proof {
            assert(orig.skip(c).len() == 0);
            assert(orig.take(c) =~= orig);
            assert(self.views() =~= keep_listed(orig, disks@));
            lemma_keep_listed_distinct(orig, disks@);
            let fin = self.views();
            assert forall|p: Seq<char>| has_point(fin, p) <==> disks_have_point(disks@, p) by {
                lemma_keep_listed_has_point(orig, disks@, p);
            }
            assert forall|k: int| 0 <= k < fin.len() implies exists|j: int| #![trigger disks@[j]]
                is_last_for(disks@, j, (#[trigger] fin[k]).point) && reflects(fin[k], disks@[j]) by {
                lemma_keep_listed_from(orig, disks@, k);
                let i = choose|i: int| 0 <= i < orig.len() && orig[i] == fin[k];
                assert(has_point(fin, fin[k].point));
                lemma_keep_listed_has_point(orig, disks@, fin[k].point);
                let full = apply_disks(old(self).views(), disks@, cap);
                assert(full == orig);
                assert(disks_have_point(disks@, full[i].point));
                let j = choose|j: int| is_last_for(disks@, j, full[i].point) && reflects(full[i], disks@[j]);
                assert(is_last_for(disks@, j, fin[k].point) && reflects(fin[k], disks@[j]));
            }
            assert(shows_last_snapshots(fin, disks@));
            lemma_newest_readings(fin, disks@);
        }
    }
}

} // verus!
