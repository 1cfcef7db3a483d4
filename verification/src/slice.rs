//! What a slice of a sequence selects.
//!
//! A slice is given by two ordinals and a stride. The ordinals bound a
//! window of consecutive slots; the stride thins the window out, always
//! counting from the window's front; its sign only decides the direction in
//! which the chosen slots are handed out.

use crate::ordinal::resolve;
use vstd::arithmetic::div_mod::{
    lemma_basic_div, lemma_div_plus_one, lemma_div_pos_is_pos, lemma_fundamental_div_mod,
};
use vstd::arithmetic::mul::{lemma_mul_inequality, lemma_mul_is_commutative};
use vstd::prelude::*;

verus! {

/// The offset at which the window opens. An ordinal that resolves to nothing
/// opens it past the end, so that nothing is selected.
pub open spec fn slice_start(len: nat, head: int) -> nat {
    match resolve(len, head) {
        Some(offset) => offset,
        None => len + 1,
    }
}

/// The offset before which the window closes: the slot that `tail` names is
/// the last one inside. An ordinal that resolves to nothing closes the window
/// behind the first slot.
pub open spec fn slice_stop(len: nat, tail: int) -> nat {
    match resolve(len, tail) {
        Some(offset) => offset + 1,
        None => 1,
    }
}

/// The items from `start` up to, not including, `stop`, as far as they exist.
pub open spec fn window<A>(s: Seq<A>, start: nat, stop: nat) -> Seq<A> {
    let end = if stop <= s.len() {
        stop
    } else {
        s.len()
    };
    if start < end {
        s.subrange(start as int, end as int)
    } else {
        Seq::empty()
    }
}

/// The first item of `s` and every `step`-th one after it.
pub open spec fn every_nth<A>(s: Seq<A>, step: nat) -> Seq<A>
    recommends
        step > 0,
{
    Seq::new(((s.len() + step - 1) / (step as int)) as nat, |k: int| s[k * step])
}

/// The size of a stride, whatever its direction.
pub open spec fn magnitude(stride: int) -> nat {
    if stride < 0 {
        (-stride) as nat
    } else {
        stride as nat
    }
}

/// The items that a slice hands out, in the order in which it does.
///
/// A negative stride selects the same items as the positive stride of the
/// same size and hands them out back to front: the selection is anchored at
/// the window's front, never at its back.
pub open spec fn select<A>(s: Seq<A>, head: int, tail: int, stride: int) -> Seq<A>
    recommends
        stride != 0,
{
    let chosen = every_nth(
        window(s, slice_start(s.len(), head), slice_stop(s.len(), tail)),
        magnitude(stride),
    );
    if stride > 0 {
        chosen
    } else {
        chosen.reverse()
    }
}

/// The offsets of a sequence of `len` slots, front to back.
pub open spec fn positions(len: nat) -> Seq<nat> {
    Seq::new(len, |i: int| i as nat)
}

/// The offsets of the slots that a slice hands out, in the order in which it
/// does.
pub open spec fn select_offsets(len: nat, head: int, tail: int, stride: int) -> Seq<nat>
    recommends
        stride != 0,
{
    select(positions(len), head, tail, stride)
}

/// `count` offsets, `step` apart, the first at `front`.
pub open spec fn strided(front: nat, step: nat, count: nat) -> Seq<nat> {
    Seq::new(count, |k: int| (front + k * step) as nat)
}

/// Thinning nothing out leaves nothing.
pub proof fn lemma_every_nth_of_nothing<A>(step: nat)
    requires
        step > 0,
    ensures
        every_nth(Seq::<A>::empty(), step) == Seq::<A>::empty(),
{
    lemma_basic_div(step - 1, step as int);
    assert(every_nth(Seq::<A>::empty(), step) =~= Seq::<A>::empty());
}

/// How many items are left of `span` consecutive ones when only every
/// `step`-th is kept, and where the kept ones sit.
pub proof fn lemma_whole_steps(span: nat, step: nat)
    requires
        span > 0,
        step > 0,
    ensures
        ({
            let steps = (span - 1) / (step as int);
            &&& steps >= 0
            &&& steps * step <= span - 1
            &&& (span + step - 1) / (step as int) == steps + 1
            &&& forall|k: int| 0 <= k <= steps ==> 0 <= #[trigger] (k * step) <= span - 1
        }),
{
    let d = step as int;
    let steps = (span - 1) / d;
    lemma_fundamental_div_mod(span - 1, d);
    lemma_mul_is_commutative(d, steps);
    lemma_div_pos_is_pos(span - 1, d);
    lemma_div_plus_one(span - 1, d);
    assert forall|k: int| 0 <= k <= steps implies 0 <= #[trigger] (k * step) <= span - 1 by {
        lemma_mul_inequality(k, steps, d);
        assert(0 <= k * d) by (nonlinear_arith)
            requires
                0 <= k,
                0 < d,
        ;
    }
}

/// Thinning a window of offsets out gives a run of equally spaced offsets:
/// one more than the number of whole steps that fit between the window's
/// first and last slot.
pub proof fn lemma_every_nth_of_window(len: nat, start: nat, stop: nat, step: nat)
    requires
        step > 0,
        start < stop,
        start < len,
    ensures
        ({
            let end = if stop <= len {
                stop
            } else {
                len
            };
            let steps = (end - start - 1) / (step as int);
            &&& steps >= 0
            &&& start + steps * step < end
            &&& every_nth(window(positions(len), start, stop), step) == strided(
                start,
                step,
                (steps + 1) as nat,
            )
        }),
{
    let end: int = if stop <= len {
        stop as int
    } else {
        len as int
    };
    let span = (end - start) as nat;
    let steps = (span - 1) / (step as int);
    lemma_whole_steps(span, step);
    let thinned = every_nth(window(positions(len), start, stop), step);
    let run = strided(start, step, (steps + 1) as nat);
    assert(window(positions(len), start, stop).len() == span);
    assert(thinned.len() == run.len());
    assert forall|k: int| 0 <= k < thinned.len() implies thinned[k] == run[k] by {
        assert(0 <= k * step <= span - 1);
    }
    assert(thinned =~= run);
}

/// Slicing commutes with looking up: the items that a slice hands out are
/// the items at the offsets that it hands out, and all those offsets are
/// offsets of slots.
pub proof fn lemma_select_by_offsets<A>(s: Seq<A>, head: int, tail: int, stride: int)
    requires
        stride != 0,
    ensures
        select(s, head, tail, stride).len() == select_offsets(s.len(), head, tail, stride).len(),
        forall|i: int|
            0 <= i < select(s, head, tail, stride).len() ==> {
                let at = #[trigger] select_offsets(s.len(), head, tail, stride)[i];
                at < s.len() && select(s, head, tail, stride)[i] == s[at as int]
            },
{
    let len = s.len();
    let start = slice_start(len, head);
    let stop = slice_stop(len, tail);
    let step = magnitude(stride);
    let w = window(s, start, stop);
    let p = window(positions(len), start, stop);
    assert(w.len() == p.len());
    let chosen = every_nth(w, step);
    let offsets = every_nth(p, step);
    assert(chosen.len() == offsets.len());
    if w.len() > 0 {
        lemma_whole_steps(w.len(), step);
        assert forall|k: int| 0 <= k < chosen.len() implies offsets[k] < len && chosen[k]
            == s[offsets[k] as int] by {
            assert(0 <= k * step <= w.len() - 1);
        }
    } else {
        lemma_every_nth_of_nothing::<A>(step);
        lemma_every_nth_of_nothing::<nat>(step);
        assert(w =~= Seq::<A>::empty());
        assert(p =~= Seq::<nat>::empty());
    }
}

} // verus!
