//! The bounded trailing history that every delayed signal is kept in.

use vstd::prelude::*;
use crate::error::FilterError;
use crate::window::{delayed, trailing};

verus! {

/// The most recent samples of one signal, at most `capacity` of them.
///
/// The samples live in a ring: `slots` grows until it holds `capacity`
/// entries and is overwritten in place from then on, `head` marking the
/// oldest one. Nothing is allocated once the ring is full.
pub struct DelayHistory<S> {
    capacity: usize,
    slots: Vec<S>,
    head: usize,
}

/// Where the ring keeps the entry that is `k` places after its oldest one.
spec fn ring_slot(head: int, k: int, len: int) -> int {
    if head + k < len {
        head + k
    } else {
        head + k - len
    }
}

impl<S: Copy> DelayHistory<S> {
    /// The retained samples, oldest first.
    pub closed spec fn view(&self) -> Seq<S> {
        Seq::new(
            self.slots@.len(),
            |k: int| self.slots@[ring_slot(self.head as int, k, self.slots@.len() as int)],
        )
    }

    /// The number of samples the history may retain.
    pub closed spec fn capacity_spec(&self) -> nat {
        self.capacity as nat
    }

    /// The ring is consistent and holds no more than its capacity.
    pub closed spec fn wf(&self) -> bool {
        &&& self.capacity >= 1
        &&& self.slots@.len() <= self.capacity
        &&& self.slots@.len() < self.capacity ==> self.head == 0
        &&& self.slots@.len() == self.capacity ==> self.head < self.capacity
    }

    /// A well-formed history has a capacity of at least one and never
    /// retains more than that.
    pub proof fn lemma_bounded(&self)
        requires
            self.wf(),
        ensures
            self.capacity_spec() >= 1,
            self@.len() <= self.capacity_spec(),
    {
    }

    /// An empty history for a signal that is read `capacity` samples late.
    /// A capacity of zero is refused.
    pub fn new(capacity: usize) -> (r: Result<Self, FilterError>)
        ensures
            capacity == 0 <==> r is Err,
            r is Err ==> r == Err::<Self, FilterError>(FilterError::ZeroDelay),
            r is Ok ==> r->Ok_0.wf() && r->Ok_0.capacity_spec() == capacity && r->Ok_0@
                == Seq::<S>::empty(),
    {
        if capacity == 0 {
            return Err(FilterError::ZeroDelay);
        }
        let h = DelayHistory { capacity, slots: Vec::new(), head: 0 };
        assert(h@ =~= Seq::<S>::empty());
        Ok(h)
    }

    /// The number of samples the history may retain.
    pub fn capacity(&self) -> (r: usize)
        ensures
            r == self.capacity_spec(),
    {
        self.capacity
    }

    /// The number of samples retained at present.
    pub fn len(&self) -> (r: usize)
        ensures
            r == self@.len(),
    {
        self.slots.len()
    }

    /// A copy of the retained samples, oldest first.
    pub fn values(&self) -> (r: Vec<S>)
        requires
            self.wf(),
        ensures
            r@ == self@,
    {
        let n: usize = self.slots.len();
        let mut out: Vec<S> = Vec::new();
        let mut k: usize = 0;
        while k < n
            invariant
                self.wf(),
                n == self.slots@.len(),
                k <= n,
                out@ == self@.take(k as int),
            decreases n - k,
        {
            let at: usize = if k < n - self.head {
                self.head + k
            } else {
                k - (n - self.head)
            };
            out.push(self.slots[at]);
            k += 1;
            assert(out@ =~= self@.take(k as int));
        }
        assert(self@.take(n as int) =~= self@);
        out
    }

    /// The sample that the signal held `capacity` positions before position
    /// `i` of the block now being produced, or `None` if the signal had not
    /// begun by then.
    ///
    /// `block` holds the current call's samples of the same signal; only the
    /// first `i` of them are looked at. For `i` at or beyond the capacity
    /// the sample comes from the block itself, below it from what the
    /// history carried into this call.
    pub fn read_delayed(&self, i: usize, block: &[S]) -> (r: Option<S>)
        requires
            self.wf(),
            i <= block@.len(),
        ensures
            r == delayed(self@ + block@.take(i as int), self.capacity_spec()),
    {
        let n: usize = self.slots.len();
        if i >= self.capacity {
            Some(block[i - self.capacity])
        } else if self.capacity - i <= n {
            let k: usize = n - (self.capacity - i);
            let at: usize = if k < n - self.head {
                self.head + k
            } else {
                k - (n - self.head)
            };
            Some(self.slots[at])
        } else {
            None
        }
    }

    /// Takes one more sample in, dropping the oldest if the ring is full.
    fn record(&mut self, v: S)
        requires
            old(self).wf(),
        ensures
            final(self).wf(),
            final(self).capacity_spec() == old(self).capacity_spec(),
            final(self)@ == trailing(old(self)@.push(v), old(self).capacity_spec()),
    {
        if self.slots.len() < self.capacity {
            self.slots.push(v);
        } else {
            self.slots[self.head] = v;
            self.head = if self.head + 1 == self.capacity {
                0
            } else {
                self.head + 1
            };
        }
        assert(self@ =~= trailing(old(self)@.push(v), old(self).capacity_spec()));
    }

    /// Appends the block that a call has produced to the signal and keeps
    /// the last `capacity` samples of the result.
    pub fn commit(&mut self, block: &[S])
        requires
            old(self).wf(),
        ensures
            final(self).wf(),
            final(self).capacity_spec() == old(self).capacity_spec(),
            final(self)@ == trailing(old(self)@ + block@, old(self).capacity_spec()),
            final(self)@.len() == if old(self)@.len() + block@.len() <= old(self).capacity_spec() {
                old(self)@.len() + block@.len()
            } else {
                old(self).capacity_spec()
            },
    {
        let n: usize = block.len();
        let mut i: usize = 0;
        assert(old(self)@ + block@.take(0) =~= old(self)@);
        while i < n
            invariant
                self.wf(),
                n == block@.len(),
                i <= n,
                self.capacity_spec() == old(self).capacity_spec(),
                self@ == trailing(old(self)@ + block@.take(i as int), old(self).capacity_spec()),
            decreases n - i,
        {
            let ghost before = self@;
            self.record(block[i]);
            proof {
                let cap = old(self).capacity_spec();
                let seen = old(self)@ + block@.take(i as int);
                assert(seen.push(block@[i as int]) =~= old(self)@ + block@.take(i + 1));
                assert(trailing(before.push(block@[i as int]), cap) =~= trailing(
                    seen.push(block@[i as int]),
                    cap,
                ));
            }
            i += 1;
        }
        assert(block@.take(n as int) =~= block@);
    }
}

} // verus!
