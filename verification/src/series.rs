//! Groups of ring buffers for multi-series charts (for example per-core CPU).

use vstd::prelude::*;
use crate::ring_buffer::{RingBuffer, keep_last};
use crate::text::{decimal, push_decimal};

verus! {

/// The label of the `i`-th series of a group labelled `label`: the group's
/// label, a space, and the index in decimal.
pub open spec fn series_label(label: Seq<char>, i: nat) -> Seq<char> {
    label + seq![' '] + decimal(i)
}

/// A collection of ring buffers for a multi-series chart, with a summary
/// buffer (for example the total or average).
#[derive(Debug, Clone)]
pub struct SeriesGroup<T> {
    /// Label for the entire group (e.g. "CPU").
    pub label: String,
    /// Individual series (e.g. one per core), each with its label.
    pub series: Vec<(String, RingBuffer<T>)>,
    /// A summary ring buffer (e.g. total/average).
    pub summary: RingBuffer<T>,
}

impl<T> SeriesGroup<T> {
    /// Every buffer of the group is well formed.
    pub open spec fn wf(&self) -> bool {
        &&& self.summary.wf()
        &&& forall|i: int| 0 <= i < self.series@.len() ==> (#[trigger] self.series@[i]).1.wf()
    }

    /// Every series is labelled after its index.
    pub open spec fn labelled(&self) -> bool {
        forall|i: int| 0 <= i < self.series@.len()
            ==> (#[trigger] self.series@[i]).0@ == series_label(self.label@, i as nat)
    }
}

fn make_label(label: &String, i: usize) -> (s: String)
    ensures
        s@ == series_label(label@, i as nat),
{
    let mut s = label.clone();
    s.push(' ');
    push_decimal(&mut s, i as u64);
    s
}

impl<T: Copy> SeriesGroup<T> {
    /// Creates a group of `count` empty series and an empty summary, each
    /// holding up to `capacity` values.
    pub fn new(label: &str, count: usize, capacity: usize) -> (g: Self)
        requires
            capacity > 0,
        ensures
            g.wf(),
            g.labelled(),
            g.label@ == label@,
            g.series@.len() == count,
            g.summary@ == Seq::<T>::empty(),
            g.summary.cap() == capacity,
            forall|i: int| 0 <= i < count ==> (#[trigger] g.series@[i]).1@ == Seq::<T>::empty()
                && g.series@[i].1.cap() == capacity,
    {
        let label = label.to_owned();
        let mut series: Vec<(String, RingBuffer<T>)> = Vec::new();
        let mut i: usize = 0;
        while i < count
            invariant
                i <= count,
                capacity > 0,
                series@.len() == i,
                forall|j: int| 0 <= j < i ==> (#[trigger] series@[j]).0@ == series_label(label@, j as nat)
                    && series@[j].1.wf() && series@[j].1@ == Seq::<T>::empty()
                    && series@[j].1.cap() == capacity,
            decreases count - i,
        {
            let name = make_label(&label, i);
            series.push((name, RingBuffer::new(capacity)));
            i = i + 1;
        }
        SeriesGroup { label, series, summary: RingBuffer::new(capacity) }
    }

    /// Pushes `values[i]` into the `i`-th series, for every series that has
    /// a value; series without one, labels and the summary stay as they were.
    pub fn push_series(&mut self, values: &[T])
        requires
            old(self).wf(),
        ensures
            final(self).wf(),
            final(self).label == old(self).label,
            final(self).summary == old(self).summary,
            final(self).series@.len() == old(self).series@.len(),
            forall|i: int| 0 <= i < old(self).series@.len() ==> {
                &&& (#[trigger] final(self).series@[i]).0 == old(self).series@[i].0
                &&& final(self).series@[i].1.cap() == old(self).series@[i].1.cap()
                &&& final(self).series@[i].1@ == if i < values@.len() {
                    keep_last(old(self).series@[i].1@.push(values@[i]), old(self).series@[i].1.cap())
                } else {
                    old(self).series@[i].1@
                }
            },
    {
        let n = self.series.len();
        let mut i: usize = 0;
        while i < n
            invariant
                n == old(self).series@.len(),
                i <= n,
                self.wf(),
                self.label == old(self).label,
                self.summary == old(self).summary,
                self.series@.len() == n,
                forall|j: int| i <= j < n ==> #[trigger] self.series@[j] == old(self).series@[j],
                forall|j: int| 0 <= j < i ==> {
                    &&& (#[trigger] self.series@[j]).0 == old(self).series@[j].0
                    &&& self.series@[j].1.cap() == old(self).series@[j].1.cap()
                    &&& self.series@[j].1@ == if j < values@.len() {
                        keep_last(old(self).series@[j].1@.push(values@[j]), old(self).series@[j].1.cap())
                    } else {
                        old(self).series@[j].1@
                    }
                },
            decreases n - i,
        {
            if i < values.len() {
                let v = values[i];
                assert(self.series@[i as int].1.wf());
                self.series[i].1.push(v);
            }
            i = i + 1;
        }
    }

    /// Sets the number of series to `count`: new series, labelled after their
    /// index and holding up to `capacity` values, are added at the end, and
    /// surplus series are dropped from the end.
    pub fn resize(&mut self, count: usize, capacity: usize)
        requires
            old(self).wf(),
            count > old(self).series@.len() ==> capacity > 0,
        ensures
            final(self).wf(),
            final(self).label == old(self).label,
            final(self).summary == old(self).summary,
            final(self).series@.len() == count,
            forall|i: int| 0 <= i < count && i < old(self).series@.len()
                ==> #[trigger] final(self).series@[i] == old(self).series@[i],
            forall|i: int| old(self).series@.len() <= i < count ==> {
                &&& (#[trigger] final(self).series@[i]).0@ == series_label(old(self).label@, i as nat)
                &&& final(self).series@[i].1@ == Seq::<T>::empty()
                &&& final(self).series@[i].1.cap() == capacity
            },
            old(self).labelled() ==> final(self).labelled(),
    {
        while self.series.len() < count
            invariant
                self.wf(),
                self.label == old(self).label,
                self.summary == old(self).summary,
                count > old(self).series@.len() ==> capacity > 0,
                old(self).series@.len() <= self.series@.len(),
                self.series@.len() <= count || self.series@.len() == old(self).series@.len(),
                forall|i: int| 0 <= i < old(self).series@.len()
                    ==> #[trigger] self.series@[i] == old(self).series@[i],
                forall|i: int| old(self).series@.len() <= i < self.series@.len() ==> {
                    &&& (#[trigger] self.series@[i]).0@ == series_label(old(self).label@, i as nat)
                    &&& self.series@[i].1@ == Seq::<T>::empty()
                    &&& self.series@[i].1.cap() == capacity
                    &&& self.series@[i].1.wf()
                },
            decreases count - self.series@.len(),
        {
            let i = self.series.len();
            let name = make_label(&self.label, i);
            self.series.push((name, RingBuffer::new(capacity)));
        }
        self.series.truncate(count);
    }
}

} // verus!
