//! The cursor of a view: which offsets are still to be handed out.

use crate::error::TupleError;
use crate::ordinal::resolve_offset;
use crate::slice::{
    every_nth, lemma_every_nth_of_nothing, lemma_every_nth_of_window, magnitude, positions,
    select_offsets, slice_start, slice_stop, strided, window,
};
use vstd::prelude::*;

verus! {

/// A run of equally spaced offsets that can be drained from either end.
///
/// The value of a cursor is `offsets()`: the offsets that it has yet to hand
/// out, in the order in which `next` does.
#[derive(Clone, Copy)]
pub struct Cursor {
    /// The frontmost offset that is left.
    front: usize,
    /// The backmost offset that is left.
    back: usize,
    /// Distance between two offsets.
    step: usize,
    /// Number of offsets that are left.
    count: usize,
    /// Whether `next` takes from the back.
    rev: bool,
}

impl Cursor {
    #[verifier::type_invariant]
    spec fn inv(self) -> bool {
        &&& self.step >= 1
        &&& self.count > 0 ==> self.back == self.front + (self.count - 1) * self.step
    }

    /// The offsets that are left, front to back.
    spec fn run(self) -> Seq<nat> {
        strided(self.front as nat, self.step as nat, self.count as nat)
    }

    /// The offsets that are left, in the order in which `next` hands them
    /// out.
    pub closed spec fn offsets(self) -> Seq<nat> {
        if self.rev {
            self.run().reverse()
        } else {
            self.run()
        }
    }

    /// Every offset that is left is the offset of one of `len` slots.
    pub open spec fn within(self, len: nat) -> bool {
        forall|i: int| 0 <= i < self.offsets().len() ==> #[trigger] self.offsets()[i] < len
    }

    /// The cursor over every `step`-th offset from `start` up to, not
    /// including, `stop` or `len`; with `rev`, handed out back to front.
    fn new(len: usize, start: usize, stop: usize, step: usize, rev: bool) -> (cursor: Self)
        requires
            step >= 1,
        ensures
            cursor.within(len as nat),
            cursor.offsets() == ({
                let chosen = every_nth(
                    window(positions(len as nat), start as nat, stop as nat),
                    step as nat,
                );
                if rev {
                    chosen.reverse()
                } else {
                    chosen
                }
            }),
    {
        let end: usize = if stop <= len {
            stop
        } else {
            len
        };
        if start < end {
            proof {
                lemma_every_nth_of_window(len as nat, start as nat, stop as nat, step as nat);
            }
            let steps: usize = (end - start - 1) / step;
            let back: usize = start + steps * step;
            let cursor = Cursor { front: start, back, step, count: steps + 1, rev };
            proof {
                assert forall|k: int| 0 <= k < cursor.run().len() implies #[trigger] cursor.run()[k]
                    < len by {
                    vstd::arithmetic::mul::lemma_mul_inequality(k, steps as int, step as int);
                }
            }
            cursor
        } else {
            proof {
                lemma_every_nth_of_nothing::<nat>(step as nat);
                assert(Seq::<nat>::empty().reverse() =~= Seq::<nat>::empty());
                assert(strided(start as nat, step as nat, 0) =~= Seq::<nat>::empty());
            }
            Cursor { front: start, back: start, step, count: 0, rev }
        }
    }

    /// The cursor of the slice of `len` slots from the slot that `head`
    /// points at to the slot that `tail` points at, with every `stride`-th
    /// slot in it. A stride of zero is refused.
    pub fn select(len: usize, head: isize, tail: isize, stride: isize) -> (cursor: Result<
        Cursor,
        TupleError,
    >)
        ensures
            stride == 0 <==> cursor is Err,
            match cursor {
                Ok(c) => c.offsets() == select_offsets(
                    len as nat,
                    head as int,
                    tail as int,
                    stride as int,
                ) && c.within(len as nat),
                Err(e) => e == TupleError::InvalidStride,
            },
    {
        if stride == 0 {
            return Err(TupleError::InvalidStride);
        }
        // Any start at or past the last slot opens an empty window.
        let start: usize = match resolve_offset(len, head) {
            Some(offset) => offset,
            None => len,
        };
        let stop: usize = match resolve_offset(len, tail) {
            Some(offset) => offset + 1,
            None => 1,
        };
        let size: usize = if stride > 0 {
            stride as usize
        } else {
            (-(stride + 1)) as usize + 1
        };
        let cursor = Cursor::new(len, start, stop, size, stride < 0);
        proof {
            assert(size == magnitude(stride as int));
            assert(stop == slice_stop(len as nat, tail as int));
            assert(window(positions(len as nat), start as nat, stop as nat) == window(
                positions(len as nat),
                slice_start(len as nat, head as int),
                stop as nat,
            ));
        }
        Ok(cursor)
    }

    /// The number of offsets that are left.
    pub fn len(&self) -> (n: usize)
        ensures
            n == self.offsets().len(),
    {
        self.count
    }

    /// Takes the frontmost offset that is left.
    fn take_front(&mut self) -> (offset: Option<usize>)
        ensures
            final(self).rev == old(self).rev,
            old(self).run().len() == 0 ==> offset is None && *final(self) == *old(self),
            old(self).run().len() > 0 ==> offset is Some && offset->0 == old(self).run().first()
                && final(self).run() == old(self).run().drop_first(),
    {
        proof {
            use_type_invariant(&*self);
        }
        if self.count == 0 {
            return None;
        }
        let at: usize = self.front;
        let left: usize = self.count - 1;
        let ghost before = *self;
        let front: usize = if left > 0 {
            proof {
                assert((left - 1) * self.step + self.step == left * self.step)
                    by (nonlinear_arith);
                assert(0 <= (left - 1) * self.step) by (nonlinear_arith)
                    requires
                        left >= 1,
                        self.step >= 1,
                ;
            }
            at + self.step
        } else {
            at
        };
        *self = Cursor { front, back: self.back, step: self.step, count: left, rev: self.rev };
        proof {
            assert forall|k: int| 0 <= k < left implies #[trigger] self.run()[k] == before.run()[k
                + 1] by {
                assert((k + 1) * before.step == k * before.step + before.step)
                    by (nonlinear_arith);
            }
            assert(self.run() =~= before.run().drop_first());
        }
        Some(at)
    }

    /// Takes the backmost offset that is left.
    fn take_back(&mut self) -> (offset: Option<usize>)
        ensures
            final(self).rev == old(self).rev,
            old(self).run().len() == 0 ==> offset is None && *final(self) == *old(self),
            old(self).run().len() > 0 ==> offset is Some && offset->0 == old(self).run().last()
                && final(self).run() == old(self).run().drop_last(),
    {
        proof {
            use_type_invariant(&*self);
        }
        if self.count == 0 {
            return None;
        }
        let at: usize = self.back;
        let left: usize = self.count - 1;
        let ghost before = *self;
        let back: usize = if left > 0 {
            proof {
                assert((left - 1) * self.step + self.step == left * self.step)
                    by (nonlinear_arith);
                assert(0 <= (left - 1) * self.step) by (nonlinear_arith)
                    requires
                        left >= 1,
                        self.step >= 1,
                ;
            }
            at - self.step
        } else {
            at
        };
        *self = Cursor { front: self.front, back, step: self.step, count: left, rev: self.rev };
        proof {
            assert(self.run() =~= before.run().drop_last());
        }
        Some(at)
    }

    /// Hands out the next offset, or nothing once the cursor is drained.
    pub fn next(&mut self) -> (offset: Option<usize>)
        ensures
            match offset {
                Some(at) => {
                    &&& old(self).offsets().len() > 0
                    &&& at == old(self).offsets().first()
                    &&& final(self).offsets() == old(self).offsets().drop_first()
                },
                None => old(self).offsets().len() == 0 && *final(self) == *old(self),
            },
    {
        if self.rev {
            let offset = self.take_back();
            proof {
                let run = old(self).run();
                if run.len() > 0 {
                    assert(run.drop_last().reverse() =~= run.reverse().drop_first());
                }
            }
            offset
        } else {
            self.take_front()
        }
    }

    /// Hands out the last of the offsets that `next` would reach, or nothing
    /// once the cursor is drained.
    pub fn next_back(&mut self) -> (offset: Option<usize>)
        ensures
            match offset {
                Some(at) => {
                    &&& old(self).offsets().len() > 0
                    &&& at == old(self).offsets().last()
                    &&& final(self).offsets() == old(self).offsets().drop_last()
                },
                None => old(self).offsets().len() == 0 && *final(self) == *old(self),
            },
    {
        if self.rev {
            let offset = self.take_front();
            proof {
                let run = old(self).run();
                if run.len() > 0 {
                    assert(run.drop_first().reverse() =~= run.reverse().drop_last());
                }
            }
            offset
        } else {
            self.take_back()
        }
    }
}

} // verus!
