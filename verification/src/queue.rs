//! The DMA command ring buffer.
//!
//! A fixed-capacity circular queue of encoded commands with a head index, a
//! tail index, and an explicit full flag: `head == tail` alone cannot tell a
//! full ring from an empty one. Foreground code pushes, the vertical-blank
//! interrupt pops; both run under the interrupt-priority lock.
//!
//! The queue's view is the sequence of queued commands, oldest first, and
//! every operation states exactly how it changes that sequence.

use vstd::prelude::*;

use crate::dma::DMACommand;

verus! {

/// Fixed-capacity ring buffer of DMA commands (capacity 1..=255).
pub struct DmaQueue {
    head: u8,
    tail: u8,
    full: bool,
    data: Vec<DMACommand>,
}

impl View for DmaQueue {
    type V = Seq<DMACommand>;

    /// The queued commands, oldest first.
    closed spec fn view(&self) -> Seq<DMACommand> {
        let n = self.data@.len() as int;
        let h = self.head as int;
        let t = self.tail as int;
        if self.full {
            self.data@.subrange(h, n) + self.data@.subrange(0, h)
        } else if h <= t {
            self.data@.subrange(h, t)
        } else {
            self.data@.subrange(h, n) + self.data@.subrange(0, t)
        }
    }
}

impl DmaQueue {
    /// Structural soundness: indices in range, full only at head == tail.
    pub closed spec fn wf(&self) -> bool {
        &&& 1 <= self.data@.len() <= 255
        &&& (self.head as int) < self.data@.len()
        &&& (self.tail as int) < self.data@.len()
        &&& (self.full ==> self.head == self.tail)
    }

    /// The number of slots.
    pub closed spec fn spec_capacity(&self) -> int {
        self.data@.len() as int
    }

    /// An empty ring with `capacity` slots.
    pub fn new(capacity: u8) -> (r: Self)
        requires
            capacity >= 1,
        ensures
            r.wf(),
            r@ == Seq::<DMACommand>::empty(),
            r.spec_capacity() == capacity,
    {
        let blank = DMACommand {
            c0: crate::vdp::LongCmd(0),
            c1: crate::vdp::LongCmd(0),
            c2: crate::vdp::LongCmd(0),
            c3: crate::vdp::LongCmd(0),
        };
        let mut data: Vec<DMACommand> = Vec::new();
        let mut i: u8 = 0;
        while i < capacity
            invariant
                i <= capacity,
                data@.len() == i as int,
            decreases capacity - i,
        {
            data.push(blank);
            i = i + 1;
        }
        let r = DmaQueue { head: 0, tail: 0, full: false, data };
        proof {
            assert(r@ =~= Seq::<DMACommand>::empty());
        }
        r
    }

    pub fn capacity(&self) -> (n: u8)
        requires
            self.wf(),
        ensures
            n == self.spec_capacity(),
    {
        self.data.len() as u8
    }

    /// True when nothing is queued.
    pub fn is_empty(&self) -> (r: bool)
        requires
            self.wf(),
        ensures
            r == (self@.len() == 0),
    {
        self.head == self.tail && !self.full
    }

    /// True when every slot is taken, so the next push must fail.
    pub fn is_full(&self) -> (r: bool)
        requires
            self.wf(),
        ensures
            r == (self@.len() == self.spec_capacity()),
    {
        proof {
            if !self.full {
                assert(self@.len() < self.data@.len());
            }
        }
        self.full
    }

    /// The next slot index after `i`, wrapping at the capacity.
    pub fn increment(&self, i: u8) -> (r: u8)
        requires
            self.wf(),
            (i as int) < self.spec_capacity(),
        ensures
            r as int == if (i as int) + 1 == self.spec_capacity() {
                0int
            } else {
                (i as int) + 1
            },
    {
        let n = i + 1;
        if (n as usize) == self.data.len() {
            0
        } else {
            n
        }
    }

    /// The slot index before `i`, wrapping at zero.
    pub fn decrement(&self, i: u8) -> (r: u8)
        requires
            self.wf(),
            (i as int) < self.spec_capacity(),
        ensures
            r as int == if i == 0 {
                self.spec_capacity() - 1
            } else {
                (i as int) - 1
            },
    {
        if i == 0 {
            (self.data.len() - 1) as u8
        } else {
            i - 1
        }
    }

    /// Pop the oldest command, or report the ring empty.
    pub fn pop_front(&mut self) -> (r: Option<DMACommand>)
        requires
            old(self).wf(),
        ensures
            final(self).wf(),
            final(self).spec_capacity() == old(self).spec_capacity(),
            old(self)@.len() == 0 ==> r is None && final(self)@ == old(self)@,
            old(self)@.len() > 0 ==> r == Some(old(self)@[0]) && final(self)@ == old(
                self,
            )@.drop_first(),
    {
        if self.is_empty() {
            None
        } else {
            Some(self.pop_front_unchecked())
        }
    }

    /// Pop the newest command, or report the ring empty.
    pub fn pop_back(&mut self) -> (r: Option<DMACommand>)
        requires
            old(self).wf(),
        ensures
            final(self).wf(),
            final(self).spec_capacity() == old(self).spec_capacity(),
            old(self)@.len() == 0 ==> r is None && final(self)@ == old(self)@,
            old(self)@.len() > 0 ==> r == Some(old(self)@.last()) && final(self)@ == old(
                self,
            )@.drop_last(),
    {
        if self.is_empty() {
            None
        } else {
            Some(self.pop_back_unchecked())
        }
    }

    /// Queue a command before the oldest entry, or hand it back unchanged if
    /// every slot is taken.
    pub fn push_front(&mut self, value: DMACommand) -> (r: Result<(), DMACommand>)
        requires
            old(self).wf(),
        ensures
            final(self).wf(),
            final(self).spec_capacity() == old(self).spec_capacity(),
            old(self)@.len() == old(self).spec_capacity() ==> r == Result::<(),
            DMACommand>::Err(value) && final(self)@ == old(self)@,
            old(self)@.len() < old(self).spec_capacity() ==> r == Result::<(),
            DMACommand>::Ok(()) && final(self)@ == seq![value] + old(self)@,
    {
        if self.is_full() {
            Err(value)
        } else {
            self.push_front_unchecked(value);
            Ok(())
        }
    }

    /// Queue a command after the newest entry, or hand it back unchanged if
    /// every slot is taken. A failed push is the backpressure signal: the
    /// command is never dropped and never retried internally.
    pub fn push_back(&mut self, value: DMACommand) -> (r: Result<(), DMACommand>)
        requires
            old(self).wf(),
        ensures
            final(self).wf(),
            final(self).spec_capacity() == old(self).spec_capacity(),
            old(self)@.len() == old(self).spec_capacity() ==> r == Result::<(),
            DMACommand>::Err(value) && final(self)@ == old(self)@,
            old(self)@.len() < old(self).spec_capacity() ==> r == Result::<(),
            DMACommand>::Ok(()) && final(self)@ == old(self)@.push(value),
    {
        if self.is_full() {
            Err(value)
        } else {
            self.push_back_unchecked(value);
            Ok(())
        }
    }

    /// Pop the oldest command without the emptiness check.
    pub fn pop_front_unchecked(&mut self) -> (r: DMACommand)
        requires
            old(self).wf(),
            old(self)@.len() > 0,
        ensures
            final(self).wf(),
            final(self).spec_capacity() == old(self).spec_capacity(),
            r == old(self)@[0],
            final(self)@ == old(self)@.drop_first(),
    {
        let index = self.head as usize;
        self.full = false;
        self.head = self.increment(self.head);
        let r = self.data[index];
        proof {
            let n = old(self).data@.len() as int;
            let h = old(self).head as int;
            let t = old(self).tail as int;
            if old(self).full {
                if h + 1 == n {
                    assert(self@ =~= old(self)@.drop_first());
                } else {
                    assert(self@ =~= old(self)@.drop_first());
                }
            } else if h <= t {
                assert(self@ =~= old(self)@.drop_first());
            } else {
                if h + 1 == n {
                    assert(self@ =~= old(self)@.drop_first());
                } else {
                    assert(self@ =~= old(self)@.drop_first());
                }
            }
        }
        r
    }

    /// Pop the newest command without the emptiness check.
    pub fn pop_back_unchecked(&mut self) -> (r: DMACommand)
        requires
            old(self).wf(),
            old(self)@.len() > 0,
        ensures
            final(self).wf(),
            final(self).spec_capacity() == old(self).spec_capacity(),
            r == old(self)@.last(),
            final(self)@ == old(self)@.drop_last(),
    {
        self.full = false;
        self.tail = self.decrement(self.tail);
        let r = self.data[self.tail as usize];
        proof {
            let n = old(self).data@.len() as int;
            let h = old(self).head as int;
            let t = old(self).tail as int;
            if old(self).full {
                if t == 0 {
                    assert(self@ =~= old(self)@.drop_last());
                } else {
                    assert(self@ =~= old(self)@.drop_last());
                }
            } else if h <= t {
                assert(self@ =~= old(self)@.drop_last());
            } else {
                if t == 0 {
                    assert(self@ =~= old(self)@.drop_last());
                } else {
                    assert(self@ =~= old(self)@.drop_last());
                }
            }
        }
        r
    }

    /// Queue a command at the front without the fullness check.
    pub fn push_front_unchecked(&mut self, value: DMACommand)
        requires
            old(self).wf(),
            old(self)@.len() < old(self).spec_capacity(),
        ensures
            final(self).wf(),
            final(self).spec_capacity() == old(self).spec_capacity(),
            final(self)@ == seq![value] + old(self)@,
    {
        let index = self.decrement(self.head) as usize;
        self.data.set(index, value);
        self.head = index as u8;
        if self.head == self.tail {
            self.full = true;
        }
        proof {
            let n = old(self).data@.len() as int;
            let h = old(self).head as int;
            let t = old(self).tail as int;
            if h == 0 {
                if self.full {
                    assert(self@ =~= seq![value] + old(self)@);
                } else {
                    assert(self@ =~= seq![value] + old(self)@);
                }
            } else {
                if self.full {
                    assert(self@ =~= seq![value] + old(self)@);
                } else {
                    assert(self@ =~= seq![value] + old(self)@);
                }
            }
        }
    }

    /// Queue a command at the back without the fullness check.
    pub fn push_back_unchecked(&mut self, value: DMACommand)
        requires
            old(self).wf(),
            old(self)@.len() < old(self).spec_capacity(),
        ensures
            final(self).wf(),
            final(self).spec_capacity() == old(self).spec_capacity(),
            final(self)@ == old(self)@.push(value),
    {
        let index = self.tail as usize;
        self.data.set(index, value);
        self.tail = self.increment(self.tail);
        if self.head == self.tail {
            self.full = true;
        }
        proof {
            let n = old(self).data@.len() as int;
            let h = old(self).head as int;
            let t = old(self).tail as int;
            if t + 1 == n {
                if self.full {
                    assert(self@ =~= old(self)@.push(value));
                } else {
                    assert(self@ =~= old(self)@.push(value));
                }
            } else {
                if self.full {
                    assert(self@ =~= old(self)@.push(value));
                } else {
                    assert(self@ =~= old(self)@.push(value));
                }
            }
        }
    }
}

/// Ring ordering law: starting from an empty ring, pushing `a`, `b`, `c` at
/// the back and then taking from the front yields `a`, `b`, `c` in that
/// order, while taking from the back yields `c`, `b`, `a` — stated over the
/// view sequence that `push_back`, `pop_front` and `pop_back` are specified
/// against.
pub proof fn lemma_ring_order(a: DMACommand, b: DMACommand, c: DMACommand)
    ensures
        ({
            let t = Seq::<DMACommand>::empty().push(a).push(b).push(c);
            &&& t.len() == 3
            &&& t[0] == a
            &&& t.drop_first()[0] == b
            &&& t.drop_first().drop_first()[0] == c
            &&& t.drop_first().drop_first().drop_first().len() == 0
            &&& t.last() == c
            &&& t.drop_last().last() == b
            &&& t.drop_last().drop_last().last() == a
            &&& t.drop_last().drop_last().drop_last().len() == 0
        }),
{
    let t = Seq::<DMACommand>::empty().push(a).push(b).push(c);
    assert(t.drop_first() =~= seq![b, c]);
    assert(t.drop_first().drop_first() =~= seq![c]);
    assert(t.drop_last() =~= seq![a, b]);
    assert(t.drop_last().drop_last() =~= seq![a]);
}

} // verus!
