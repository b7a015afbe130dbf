//! Fixed-size circular buffer for time series data.
//!
//! Used to store metric history for sparkline and chart rendering. A ring
//! buffer has a fixed capacity and overwrites its oldest entry when full.

use vstd::prelude::*;

verus! {

/// The last `n` elements of `s` (all of `s` when it is no longer than `n`).
pub open spec fn keep_last<T>(s: Seq<T>, n: nat) -> Seq<T> {
    if s.len() <= n {
        s
    } else {
        s.subrange(s.len() - n, s.len() as int)
    }
}

/// After a push, the newest kept value is the pushed one, and the window
/// holds one more value than before unless it was already full.
pub proof fn lemma_keep_last_push<T>(s: Seq<T>, x: T, n: nat)
    requires
        n > 0,
    ensures
        keep_last(s.push(x), n).len() > 0,
        keep_last(s.push(x), n).last() == x,
        keep_last(s.push(x), n).len() == if s.len() < n { s.len() + 1 } else { n },
{
}

/// The window after pushing each of `xs` in turn into the window `s` of
/// size `n`, keeping the last `n` values after every push.
pub open spec fn pushed_in_turn<T>(s: Seq<T>, xs: Seq<T>, n: nat) -> Seq<T>
    decreases xs.len(),
{
    if xs.len() == 0 {
        s
    } else {
        pushed_in_turn(keep_last(s.push(xs[0]), n), xs.drop_first(), n)
    }
}

/// Trimming before appending more values does not change what a final trim
/// keeps.
proof fn lemma_keep_last_of_kept<T>(a: Seq<T>, b: Seq<T>, n: nat)
    ensures
        keep_last(keep_last(a, n) + b, n) == keep_last(a + b, n),
{
    if a.len() > n {
        let k = keep_last(a, n);
        assert(keep_last(k + b, n) =~= keep_last(a + b, n)) by {
            assert forall|i: int| 0 <= i < keep_last(k + b, n).len()
                implies #[trigger] keep_last(k + b, n)[i] == keep_last(a + b, n)[i] by {
                let j = (k + b).len() - n + i;
                if j < k.len() {
                    assert((k + b)[j] == a[a.len() - n + j]);
                }
            }
        }
    }
}

/// Pushing values one at a time into a window no larger than `n` keeps
/// the last `n` values of everything pushed.
proof fn lemma_pushes_keep_last<T>(s: Seq<T>, xs: Seq<T>, n: nat)
    requires
        s.len() <= n,
    ensures
        pushed_in_turn(s, xs, n) == keep_last(s + xs, n),
    decreases xs.len(),
{
    if xs.len() == 0 {
        assert(s + xs =~= s);
    } else {
        let s1 = keep_last(s.push(xs[0]), n);
        lemma_pushes_keep_last(s1, xs.drop_first(), n);
        lemma_keep_last_of_kept(s.push(xs[0]), xs.drop_first(), n);
        assert(s.push(xs[0]) + xs.drop_first() =~= s + xs);
    }
}

/// A buffer of capacity `c`, created empty (or cleared) and then given the
/// values `xs` one push at a time, holds the last min(|xs|, c) of them,
/// oldest first.
pub proof fn lemma_buffer_after_pushes<T>(xs: Seq<T>, c: nat)
    ensures
        pushed_in_turn(Seq::<T>::empty(), xs, c) == keep_last(xs, c),
        keep_last(xs, c).len() == if xs.len() <= c { xs.len() } else { c },
        forall|i: int| 0 <= i < keep_last(xs, c).len()
            ==> #[trigger] keep_last(xs, c)[i] == xs[xs.len() - keep_last(xs, c).len() + i],
{
    lemma_pushes_keep_last(Seq::<T>::empty(), xs, c);
    assert(Seq::<T>::empty() + xs =~= xs);
}

/// After a buffer is emptied, a push leaves exactly the pushed value.
pub proof fn lemma_push_after_clear<T>(x: T, c: nat)
    requires
        c > 0,
    ensures
        keep_last(Seq::<T>::empty().push(x), c) == seq![x],
{
    assert(Seq::<T>::empty().push(x) =~= seq![x]);
}

/// Where the `i`-th oldest value lives, counting from physical slot `start`
/// and wrapping around at `cap`.
pub open spec fn slot(start: int, i: int, cap: int) -> int {
    if start + i < cap {
        start + i
    } else {
        start + i - cap
    }
}

/// A fixed-size circular buffer of data points.
#[derive(Debug, Clone)]
pub struct RingBuffer<T> {
    data: Vec<T>,
    capacity: usize,
    head: usize,
    len: usize,
}

impl<T> RingBuffer<T> {
    /// The buffer's internal consistency: the stored slots, the write
    /// position and the count agree with the capacity.
    pub closed spec fn wf(&self) -> bool {
        &&& self.capacity > 0
        &&& self.len <= self.capacity
        &&& self.data@.len() == self.len
        &&& self.head < self.capacity
        &&& self.len < self.capacity ==> self.head == self.len
    }

    /// The physical slot of the oldest value.
    closed spec fn start(&self) -> int {
        if self.len < self.capacity {
            0
        } else {
            self.head as int
        }
    }

    /// The buffer's capacity.
    pub closed spec fn cap(&self) -> nat {
        self.capacity as nat
    }

    /// The stored values, oldest first.
    pub closed spec fn contents(&self) -> Seq<T> {
        Seq::new(
            self.len as nat,
            |i: int| self.data@[slot(self.start(), i, self.capacity as int)],
        )
    }

    /// A well-formed buffer never holds more values than its capacity.
    pub proof fn lemma_len_at_most_capacity(&self)
        requires
            self.wf(),
        ensures
            self.contents().len() <= self.cap(),
            self.cap() > 0,
    {
    }
}

impl<T> View for RingBuffer<T> {
    type V = Seq<T>;

    open spec fn view(&self) -> Seq<T> {
        self.contents()
    }
}

impl<T: Copy> RingBuffer<T> {
    /// Creates an empty ring buffer with the given capacity, which must be
    /// positive.
    pub fn new(capacity: usize) -> (rb: Self)
        requires
            capacity > 0,
        ensures
            rb.wf(),
            rb@ == Seq::<T>::empty(),
            rb.cap() == capacity,
    {
        let rb = RingBuffer { data: Vec::new(), capacity, head: 0, len: 0 };
        assert(rb.contents() =~= Seq::<T>::empty());
        rb
    }

    /// Pushes a value, overwriting the oldest one when the buffer is full.
    pub fn push(&mut self, value: T)
        requires
            old(self).wf(),
        ensures
            final(self).wf(),
            final(self).cap() == old(self).cap(),
            final(self)@ == keep_last(old(self)@.push(value), old(self).cap()),
    {
        let ghost before = self@;
        let cap = self.capacity;
        if self.len < cap {
            self.data.push(value);
            self.head = if self.head + 1 < cap { self.head + 1 } else { 0 };
            self.len = self.len + 1;
            assert(self@ =~= before.push(value));
        } else {
            let h = self.head;
            self.data.set(h, value);
            self.head = if h + 1 < cap { h + 1 } else { 0 };
            let ghost expected = keep_last(before.push(value), cap as nat);
            assert forall|i: int| 0 <= i < cap implies #[trigger] self@[i] == expected[i] by {
                assert(slot(self.head as int, i, cap as int) == slot(h as int, i + 1, cap as int));
            }
            assert(self@ =~= expected);
        }
    }

    /// The values in chronological order, oldest first.
    pub fn values(&self) -> (r: Vec<T>)
        requires
            self.wf(),
        ensures
            r@ == self@,
    {
        let cap = self.capacity;
        let start = if self.len < cap { 0 } else { self.head };
        let mut r: Vec<T> = Vec::new();
        let mut i: usize = 0;
        while i < self.len
            invariant
                self.wf(),
                i <= self.len,
                cap == self.capacity,
                start == self.start(),
                r@ =~= self@.subrange(0, i as int),
            decreases self.len - i,
        {
            let idx = if i < cap - start { start + i } else { i - (cap - start) };
            r.push(self.data[idx]);
            i = i + 1;
        }
        r
    }

    /// The most recent value, or `None` when the buffer is empty.
    pub fn latest(&self) -> (r: Option<T>)
        requires
            self.wf(),
        ensures
            r == (if self@.len() == 0 { None } else { Some(self@.last()) }),
    {
        if self.len == 0 {
            None
        } else {
            let idx = if self.head == 0 { self.capacity - 1 } else { self.head - 1 };
            Some(self.data[idx])
        }
    }

    /// The number of stored values.
    pub fn len(&self) -> (n: usize)
        requires
            self.wf(),
        ensures
            n == self@.len(),
    {
        self.len
    }

    /// Whether the buffer holds no values.
    pub fn is_empty(&self) -> (b: bool)
        requires
            self.wf(),
        ensures
            b == (self@.len() == 0),
    {
        self.len == 0
    }

    /// The buffer's capacity.
    pub fn capacity(&self) -> (n: usize)
        requires
            self.wf(),
        ensures
            n == self.cap(),
    {
        self.capacity
    }

    /// Removes every value; the capacity stays.
    pub fn clear(&mut self)
        requires
            old(self).wf(),
        ensures
            final(self).wf(),
            final(self).cap() == old(self).cap(),
            final(self)@ == Seq::<T>::empty(),
    {
        self.data.clear();
        self.head = 0;
        self.len = 0;
        assert(self@ =~= Seq::<T>::empty());
    }
}

} // verus!
