//! Network throughput per interface: the increase of the cumulative byte
//! counters between consecutive snapshots.

use vstd::prelude::*;
use crate::platform::NetworkInfo;
use crate::ring_buffer::{RingBuffer, keep_last};

verus! {

/// The abstract state of one tracked interface.
pub ghost struct InterfaceView {
    pub name: Seq<char>,
    pub rx: Seq<u64>,
    pub tx: Seq<u64>,
    pub cap: nat,
    pub prev_rx: u64,
    pub prev_tx: u64,
    pub total_rx: u64,
    pub total_tx: u64,
}

/// `now - before`, or zero when the counter went down.
pub open spec fn counter_delta(now: u64, before: u64) -> u64 {
    if now >= before { (now - before) as u64 } else { 0 }
}

/// An interface seen for the first time: its counters are the baseline,
/// and it has no throughput readings yet.
pub open spec fn fresh_interface(n: NetworkInfo, cap: nat) -> InterfaceView {
    InterfaceView {
        name: n.interface@,
        rx: Seq::empty(),
        tx: Seq::empty(),
        cap: cap,
        prev_rx: n.rx_bytes,
        prev_tx: n.tx_bytes,
        total_rx: n.rx_bytes,
        total_tx: n.tx_bytes,
    }
}

/// A known interface after another snapshot: one more reading per
/// direction, the counters' increase since the previous snapshot.
pub open spec fn record_interface(m: InterfaceView, n: NetworkInfo) -> InterfaceView {
    InterfaceView {
        rx: keep_last(m.rx.push(counter_delta(n.rx_bytes, m.prev_rx)), m.cap),
        tx: keep_last(m.tx.push(counter_delta(n.tx_bytes, m.prev_tx)), m.cap),
        prev_rx: n.rx_bytes,
        prev_tx: n.tx_bytes,
        total_rx: n.rx_bytes,
        total_tx: n.tx_bytes,
        ..m
    }
}

/// Recording a snapshot adds, per direction, how far the byte counter
/// moved since the previous snapshot (zero when it went down, as after a
/// counter reset), and takes the snapshot's counters as the new baseline
/// and totals.
pub proof fn lemma_recorded_delta(m: InterfaceView, n: NetworkInfo)
    requires
        m.cap > 0,
    ensures
        ({
            let r = record_interface(m, n);
            &&& r.name == m.name
            &&& r.rx.len() > 0 && r.tx.len() > 0
            &&& n.rx_bytes >= m.prev_rx ==> r.rx.last() + m.prev_rx == n.rx_bytes
            &&& n.rx_bytes < m.prev_rx ==> r.rx.last() == 0
            &&& n.tx_bytes >= m.prev_tx ==> r.tx.last() + m.prev_tx == n.tx_bytes
            &&& n.tx_bytes < m.prev_tx ==> r.tx.last() == 0
            &&& r.prev_rx == n.rx_bytes && r.prev_tx == n.tx_bytes
            &&& r.total_rx == n.rx_bytes && r.total_tx == n.tx_bytes
        }),
{
    crate::ring_buffer::lemma_keep_last_push(m.rx, counter_delta(n.rx_bytes, m.prev_rx), m.cap);
    crate::ring_buffer::lemma_keep_last_push(m.tx, counter_delta(n.tx_bytes, m.prev_tx), m.cap);
}

/// Whether some tracked interface is called `name`.
pub open spec fn has_interface(ms: Seq<InterfaceView>, name: Seq<char>) -> bool {
    exists|i: int| 0 <= i < ms.len() && (#[trigger] ms[i]).name == name
}

/// No two interfaces share a name.
pub open spec fn distinct_names(ms: Seq<InterfaceView>) -> bool {
    forall|i: int, j: int| 0 <= i < j < ms.len() ==> (#[trigger] ms[i]).name != (#[trigger] ms[j]).name
}

/// One snapshot applied: the interface with its name records it, or a new
/// interface is appended.
pub open spec fn apply_network(ms: Seq<InterfaceView>, n: NetworkInfo, cap: nat) -> Seq<InterfaceView> {
    if has_interface(ms, n.interface@) {
        let i = choose|i: int| 0 <= i < ms.len() && (#[trigger] ms[i]).name == n.interface@;
        ms.update(i, record_interface(ms[i], n))
    } else {
        ms.push(fresh_interface(n, cap))
    }
}

/// All snapshots applied in order.
pub open spec fn apply_networks(ms: Seq<InterfaceView>, ns: Seq<NetworkInfo>, cap: nat) -> Seq<InterfaceView>
    decreases ns.len(),
{
    if ns.len() == 0 {
        ms
    } else {
        apply_network(apply_networks(ms, ns.drop_last(), cap), ns.last(), cap)
    }
}

/// Whether some snapshot is for the interface called `name`.
pub open spec fn networks_have(ns: Seq<NetworkInfo>, name: Seq<char>) -> bool {
    exists|j: int| 0 <= j < ns.len() && (#[trigger] ns[j]).interface@ == name
}

/// Applying snapshots keeps every tracked interface at its position, adds an
/// interface for each new name, and keeps names distinct.
pub proof fn lemma_apply_networks(ms: Seq<InterfaceView>, ns: Seq<NetworkInfo>, cap: nat)
    requires
        distinct_names(ms),
    ensures
        distinct_names(apply_networks(ms, ns, cap)),
        apply_networks(ms, ns, cap).len() >= ms.len(),
        forall|i: int| 0 <= i < ms.len() ==> (#[trigger] apply_networks(ms, ns, cap)[i]).name == ms[i].name,
        forall|n: Seq<char>| has_interface(apply_networks(ms, ns, cap), n)
            <==> (has_interface(ms, n) || networks_have(ns, n)),
    decreases ns.len(),
{
    if ns.len() > 0 {
        let init = ns.drop_last();
        let x = ns.last();
        let q = x.interface@;
        lemma_apply_networks(ms, init, cap);
        let prev = apply_networks(ms, init, cap);
        let r = apply_networks(ms, ns, cap);
        assert(r == apply_network(prev, x, cap));
        assert(ns[ns.len() - 1] == x);
        if has_interface(prev, q) {
            let i = choose|i: int| 0 <= i < prev.len() && (#[trigger] prev[i]).name == q;
            assert(r == prev.update(i, record_interface(prev[i], x)));
            assert forall|a: int, b: int| 0 <= a < b < r.len() implies (#[trigger] r[a]).name != (#[trigger] r[b]).name by {
                assert(prev[a].name != prev[b].name);
            }
            assert forall|k: int| 0 <= k < ms.len() implies (#[trigger] r[k]).name == ms[k].name by {
                assert(prev[k].name == ms[k].name);
            }
        } else {
            assert(r == prev.push(fresh_interface(x, cap)));
            assert forall|a: int, b: int| 0 <= a < b < r.len() implies (#[trigger] r[a]).name != (#[trigger] r[b]).name by {
                if b == prev.len() {
                    assert(prev[a].name != q);
                } else {
                    assert(prev[a].name != prev[b].name);
                }
            }
            assert forall|k: int| 0 <= k < ms.len() implies (#[trigger] r[k]).name == ms[k].name by {
                assert(prev[k].name == ms[k].name);
            }
        }
        assert forall|n: Seq<char>| has_interface(r, n) <==> (has_interface(ms, n) || networks_have(ns, n)) by {
            if has_interface(r, n) {
                let w = choose|w: int| 0 <= w < r.len() && (#[trigger] r[w]).name == n;
                if w < prev.len() {
                    assert(prev[w].name == n);
                    assert(has_interface(prev, n));
                    if networks_have(init, n) {
                        let y = choose|y: int| 0 <= y < init.len() && (#[trigger] init[y]).interface@ == n;
                        assert(ns[y] == init[y]);
                    }
                } else {
                    assert(ns[ns.len() - 1].interface@ == n);
                }
            }
            if has_interface(ms, n) || networks_have(ns, n) {
                if n == q {
                    if has_interface(prev, q) {
                        let i = choose|i: int| 0 <= i < prev.len() && (#[trigger] prev[i]).name == q;
                        assert(r[i].name == n);
                    } else {
                        assert(r[prev.len() as int].name == n);
                    }
                } else {
                    if networks_have(ns, n) && !has_interface(ms, n) {
                        let y = choose|y: int| 0 <= y < ns.len() && (#[trigger] ns[y]).interface@ == n;
                        assert(init[y] == ns[y]);
                    }
                    assert(has_interface(prev, n));
                    let w = choose|w: int| 0 <= w < prev.len() && (#[trigger] prev[w]).name == n;
                    assert(r[w].name == n);
                }
            }
        }
    }
}

/// No two snapshots are for the same interface.
pub open spec fn distinct_snapshots(ns: Seq<NetworkInfo>) -> bool {
    forall|i: int, j: int| 0 <= i < j < ns.len() ==> (#[trigger] ns[i]).interface@ != (#[trigger] ns[j]).interface@
}

/// The last snapshot for the interface called `name`, if any.
pub open spec fn last_snapshot_for(ns: Seq<NetworkInfo>, name: Seq<char>) -> Option<NetworkInfo>
    decreases ns.len(),
{
    if ns.len() == 0 {
        None
    } else if ns.last().interface@ == name {
        Some(ns.last())
    } else {
        last_snapshot_for(ns.drop_last(), name)
    }
}

/// The tracked interfaces, each having recorded its snapshot if there is
/// one, in their order.
pub open spec fn recorded_interfaces(ms: Seq<InterfaceView>, ns: Seq<NetworkInfo>) -> Seq<InterfaceView> {
    Seq::new(ms.len(), |i: int| match last_snapshot_for(ns, ms[i].name) {
        Some(n) => record_interface(ms[i], n),
        None => ms[i],
    })
}

/// A fresh interface for each snapshot whose interface is not tracked, in
/// snapshot order.
pub open spec fn new_interfaces(ms: Seq<InterfaceView>, ns: Seq<NetworkInfo>, cap: nat) -> Seq<InterfaceView>
    decreases ns.len(),
{
    if ns.len() == 0 {
        Seq::empty()
    } else if has_interface(ms, ns.last().interface@) {
        new_interfaces(ms, ns.drop_last(), cap)
    } else {
        new_interfaces(ms, ns.drop_last(), cap).push(fresh_interface(ns.last(), cap))
    }
}

proof fn lemma_no_snapshot_for(ns: Seq<NetworkInfo>, name: Seq<char>)
    requires
        !networks_have(ns, name),
    ensures
        last_snapshot_for(ns, name) is None,
    decreases ns.len(),
{
    if ns.len() > 0 {
        assert(ns[ns.len() - 1] == ns.last());
        assert forall|j: int| 0 <= j < ns.drop_last().len() implies (#[trigger] ns.drop_last()[j]).interface@ != name by {
            assert(ns[j] == ns.drop_last()[j]);
        }
        lemma_no_snapshot_for(ns.drop_last(), name);
    }
}

/// With distinct snapshots, an update in explicit form: every tracked
/// interface stays at its place and records exactly one reading per
/// direction from its snapshot (or is unchanged when it has none), and one
/// fresh interface per untracked snapshot follows, in snapshot order.
/// Nothing is dropped.
pub proof fn lemma_networks_explicit(ms: Seq<InterfaceView>, ns: Seq<NetworkInfo>, cap: nat)
    requires
        distinct_names(ms),
        distinct_snapshots(ns),
    ensures
        apply_networks(ms, ns, cap) == recorded_interfaces(ms, ns) + new_interfaces(ms, ns, cap),
    decreases ns.len(),
{
    if ns.len() == 0 {
        assert(recorded_interfaces(ms, ns) =~= ms);
        assert(apply_networks(ms, ns, cap) =~= recorded_interfaces(ms, ns) + new_interfaces(ms, ns, cap));
    } else {
        let init = ns.drop_last();
        let x = ns.last();
        let q = x.interface@;
        assert(distinct_snapshots(init)) by {
            assert forall|i: int, j: int| 0 <= i < j < init.len() implies
                (#[trigger] init[i]).interface@ != (#[trigger] init[j]).interface@ by {
                assert(init[i] == ns[i] && init[j] == ns[j]);
            }
        }
        lemma_networks_explicit(ms, init, cap);
        lemma_apply_networks(ms, init, cap);
        let a = apply_networks(ms, init, cap);
        let r0 = recorded_interfaces(ms, init);
        let r1 = recorded_interfaces(ms, ns);
        assert(!networks_have(init, q)) by {
            if networks_have(init, q) {
                let j = choose|j: int| 0 <= j < init.len() && (#[trigger] init[j]).interface@ == q;
                assert(ns[j] == init[j]);
                assert(ns[ns.len() - 1] == x);
            }
        }
        lemma_no_snapshot_for(init, q);
        assert(last_snapshot_for(ns, q) == Some(x));
        assert(apply_networks(ms, ns, cap) == apply_network(a, x, cap));
        if has_interface(ms, q) {
            let i0 = choose|i: int| 0 <= i < ms.len() && (#[trigger] ms[i]).name == q;
            assert(a[i0] == r0[i0]);
            assert(r0[i0] == ms[i0]);
            assert(has_interface(a, q));
            let i = choose|i: int| 0 <= i < a.len() && (#[trigger] a[i]).name == q;
            assert(a[i0].name == q);
            assert(i == i0);
            assert(new_interfaces(ms, ns, cap) == new_interfaces(ms, init, cap));
            assert forall|k: int| 0 <= k < ms.len() implies #[trigger] r1[k] == if k == i0 {
                record_interface(ms[i0], x)
            } else {
                r0[k]
            } by {
                if k != i0 {
                    assert(ms[k].name != q);
                }
            }
            assert(apply_networks(ms, ns, cap) =~= r1 + new_interfaces(ms, ns, cap));
        } else {
            assert(!has_interface(a, q));
            assert forall|k: int| 0 <= k < ms.len() implies #[trigger] r1[k] == r0[k] by {
                assert(ms[k].name != q);
            }
            assert(r1 =~= r0);
            assert(apply_networks(ms, ns, cap) =~= r1 + new_interfaces(ms, ns, cap));
        }
    }
}

/// Throughput metrics for a single network interface.
#[derive(Debug, Clone)]
pub struct InterfaceMetrics {
    /// Interface name (e.g. "en0").
    pub name: String,
    /// Received bytes per sampling interval, oldest first.
    pub rx_history: RingBuffer<u64>,
    /// Transmitted bytes per sampling interval, oldest first.
    pub tx_history: RingBuffer<u64>,
    /// Previous cumulative rx bytes (for computing delta).
    prev_rx: u64,
    /// Previous cumulative tx bytes (for computing delta).
    prev_tx: u64,
    /// Total cumulative received bytes.
    pub total_rx: u64,
    /// Total cumulative transmitted bytes.
    pub total_tx: u64,
}

impl InterfaceMetrics {
    /// The interface's abstract state.
    pub closed spec fn model(&self) -> InterfaceView {
        InterfaceView {
            name: self.name@,
            rx: self.rx_history@,
            tx: self.tx_history@,
            cap: self.rx_history.cap(),
            prev_rx: self.prev_rx,
            prev_tx: self.prev_tx,
            total_rx: self.total_rx,
            total_tx: self.total_tx,
        }
    }

    /// Both histories are well formed and share one capacity.
    pub closed spec fn wf(&self) -> bool {
        &&& self.rx_history.wf()
        &&& self.tx_history.wf()
        &&& self.rx_history.cap() == self.tx_history.cap()
    }

    fn new(info: &NetworkInfo, history_len: usize) -> (m: Self)
        requires
            history_len > 0,
        ensures
            m.wf(),
            m.model() == fresh_interface(*info, history_len as nat),
    {
        InterfaceMetrics {
            name: info.interface.clone(),
            rx_history: RingBuffer::new(history_len),
            tx_history: RingBuffer::new(history_len),
            prev_rx: info.rx_bytes,
            prev_tx: info.tx_bytes,
            total_rx: info.rx_bytes,
            total_tx: info.tx_bytes,
        }
    }

    fn update(&mut self, info: &NetworkInfo)
        requires
            old(self).wf(),
        ensures
            final(self).wf(),
            final(self).model() == record_interface(old(self).model(), *info),
    {
        let rx_delta = info.rx_bytes.saturating_sub(self.prev_rx);
        let tx_delta = info.tx_bytes.saturating_sub(self.prev_tx);
        self.rx_history.push(rx_delta);
        self.tx_history.push(tx_delta);
        self.prev_rx = info.rx_bytes;
        self.prev_tx = info.tx_bytes;
        self.total_rx = info.rx_bytes;
        self.total_tx = info.tx_bytes;
    }

    /// Bytes received in the latest sampling interval, or 0 before the
    /// first interval.
    pub fn current_rx(&self) -> (r: u64)
        requires
            self.wf(),
        ensures
            r == (if self.model().rx.len() == 0 { 0 } else { self.model().rx.last() }),
    {
        match self.rx_history.latest() {
            Some(v) => v,
            None => 0,
        }
    }

    /// Bytes transmitted in the latest sampling interval, or 0 before the
    /// first interval.
    pub fn current_tx(&self) -> (r: u64)
        requires
            self.wf(),
        ensures
            r == (if self.model().tx.len() == 0 { 0 } else { self.model().tx.last() }),
    {
        match self.tx_history.latest() {
            Some(v) => v,
            None => 0,
        }
    }
}

/// The abstract state of a list of interfaces.
pub open spec fn interfaces_model(ms: Seq<InterfaceMetrics>) -> Seq<InterfaceView> {
    ms.map_values(|m: InterfaceMetrics| m.model())
}

/// Network metrics with throughput history per interface.
#[derive(Debug, Clone)]
pub struct NetworkMetrics {
    /// Per-interface metrics.
    pub interfaces: Vec<InterfaceMetrics>,
    /// History buffer capacity.
    history_len: usize,
}

fn find_interface(ms: &Vec<InterfaceMetrics>, name: &String) -> (r: Option<usize>)
    ensures
        match r {
            Some(i) => i < ms@.len() && ms@[i as int].model().name == name@,
            None => !has_interface(interfaces_model(ms@), name@),
        },
{
    let mut i: usize = 0;
    while i < ms.len()
        invariant
            i <= ms@.len(),
            forall|j: int| 0 <= j < i ==> (#[trigger] ms@[j]).model().name != name@,
        decreases ms@.len() - i,
    {
        proof {
            assert(ms@[i as int].model().name == ms@[i as int].name@);
        }
        if ms[i].name == *name {
            return Some(i);
        }
        i = i + 1;
    }
    proof {
        let v = interfaces_model(ms@);
        assert forall|j: int| 0 <= j < v.len() implies (#[trigger] v[j]).name != name@ by {
            assert(ms@[j].model().name != name@);
        }
    }
    None
}

impl NetworkMetrics {
    /// The abstract state of the tracked interfaces, in order.
    pub closed spec fn views(&self) -> Seq<InterfaceView> {
        interfaces_model(self.interfaces@)
    }

    /// The capacity new interfaces' histories get.
    pub closed spec fn history_capacity(&self) -> nat {
        self.history_len as nat
    }

    /// Every interface is well formed with the tracker's capacity, and no two
    /// interfaces share a name.
    pub closed spec fn wf(&self) -> bool {
        &&& forall|i: int| 0 <= i < self.interfaces@.len() ==> {
            &&& (#[trigger] self.interfaces@[i]).wf()
            &&& self.interfaces@[i].model().cap == self.history_len
        }
        &&& distinct_names(self.views())
    }

    /// A well-formed tracker's interfaces have distinct names, positive
    /// history capacities equal to the tracker's, and are each well formed.
    pub proof fn lemma_wf_facts(&self)
        requires
            self.wf(),
        ensures
            distinct_names(self.views()),
            forall|i: int| 0 <= i < self.views().len() ==> (#[trigger] self.views()[i]).cap == self.history_capacity(),
            forall|i: int| 0 <= i < self.views().len() ==> (#[trigger] self.views()[i]).cap > 0,
    {
        assert forall|i: int| 0 <= i < self.views().len() implies (#[trigger] self.views()[i]).cap > 0 by {
            assert(self.interfaces@[i].wf());
            self.interfaces@[i].rx_history.lemma_len_at_most_capacity();
        }
    }

    /// The number of tracked interfaces.
    pub fn interface_count(&self) -> (n: usize)
        ensures
            n == self.views().len(),
    {
        self.interfaces.len()
    }

    /// The `i`-th tracked interface.
    pub fn interface(&self, i: usize) -> (r: &InterfaceMetrics)
        requires
            i < self.views().len(),
        ensures
            r.model() == self.views()[i as int],
            self.wf() ==> r.wf(),
    {
        &self.interfaces[i]
    }

    /// Creates a tracker with no interfaces, whose histories will keep
    /// `history_len` readings.
    pub fn new(history_len: usize) -> (n: Self)
        ensures
            n.wf(),
            n.views() == Seq::<InterfaceView>::empty(),
            n.history_capacity() == history_len,
    {
        let n = NetworkMetrics { interfaces: Vec::new(), history_len };
        assert(n.views() =~= Seq::<InterfaceView>::empty());
        n
    }

    /// Records a set of interface snapshots: each updates the interface with
    /// its name, or starts tracking a new interface. Interfaces are never
    /// dropped.
    pub fn update(&mut self, networks: &[NetworkInfo])
        requires
            old(self).wf(),
            old(self).history_capacity() > 0 || networks@.len() == 0,
        ensures
            final(self).wf(),
            final(self).history_capacity() == old(self).history_capacity(),
            final(self).views() == apply_networks(old(self).views(), networks@, old(self).history_capacity()),
            forall|i: int| 0 <= i < old(self).views().len() ==> (#[trigger] final(self).views()[i]).name == old(self).views()[i].name,
            forall|n: Seq<char>| has_interface(final(self).views(), n)
                <==> (has_interface(old(self).views(), n) || networks_have(networks@, n)),
    {
        proof {
            lemma_apply_networks(self.views(), networks@, self.history_capacity());
        }
        let ghost cap = self.history_capacity();
        let n = networks.len();
        let mut i: usize = 0;
        while i < n
            invariant
                n == networks@.len(),
                i <= n,
                self.wf(),
                self.history_capacity() == cap,
                cap > 0 || n == 0,
                self.views() == apply_networks(old(self).views(), networks@.take(i as int), cap),
            decreases n - i,
        {
            let ghost before = self.views();
            let info = &networks[i];
            match find_interface(&self.interfaces, &info.interface) {
                Some(j) => {
                    assert(self.interfaces@[j as int].wf());
                    self.interfaces[j].update(info);
                    proof {
                        assert(before[j as int].name == info.interface@);
                        assert(has_interface(before, info.interface@));
                        let c = choose|c: int| 0 <= c < before.len() && (#[trigger] before[c]).name == info.interface@;
                        assert(c == j);
                        assert(self.views() =~= before.update(j as int, record_interface(before[j as int], *info)));
                        let v = self.views();
                        assert forall|a: int, b: int| 0 <= a < b < v.len() implies (#[trigger] v[a]).name != (#[trigger] v[b]).name by {
                            assert(before[a].name != before[b].name);
                        }
                    }
                }
                None => {
                    let m = InterfaceMetrics::new(info, self.history_len);
                    self.interfaces.push(m);
                    proof {
                        assert(self.views() =~= before.push(fresh_interface(*info, cap)));
                        let v = self.views();
                        assert forall|a: int, b: int| 0 <= a < b < v.len() implies (#[trigger] v[a]).name != (#[trigger] v[b]).name by {
                            if b < before.len() {
                                assert(before[a].name != before[b].name);
                            } else {
                                assert(before[a].name != info.interface@);
                            }
                        }
                    }
                }
            }
            proof {
                assert(networks@.take(i + 1).drop_last() =~= networks@.take(i as int));
                assert(networks@.take(i + 1).last() == networks@[i as int]);
            }
            i = i + 1;
        }
        assert(networks@.take(n as int) =~= networks@);
    }
}

} // verus!
