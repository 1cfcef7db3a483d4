//! Laws that relate the operations of a tuple to each other, proved on the
//! model that the operations are specified by.

use crate::error::TupleError;
use crate::record::{shifted, Record};
use crate::slice::{every_nth, magnitude, select, slice_start, slice_stop, window};
use vstd::prelude::*;

verus! {

/// A map that sends finitely many keys to distinct numbers below `bound` has
/// at most `bound` keys.
proof fn lemma_distinct_below_bound(m: Map<Seq<char>, nat>, bound: nat)
    requires
        m.dom().finite(),
        forall|k: Seq<char>| #[trigger] m.contains_key(k) ==> m[k] < bound,
        forall|a: Seq<char>, b: Seq<char>|
            #![trigger m[a], m[b]]
            m.contains_key(a) && m.contains_key(b) && a != b ==> m[a] != m[b],
    ensures
        m.dom().len() <= bound,
    decreases bound,
{
    if m.dom().len() == 0 {
    } else if bound == 0 {
        let k = m.dom().choose();
        assert(m.contains_key(k));
    } else if exists|k: Seq<char>| m.contains_key(k) && m[k] == bound - 1 {
        let top = choose|k: Seq<char>| m.contains_key(k) && m[k] == bound - 1;
        let rest = m.remove(top);
        assert forall|k: Seq<char>| #[trigger] rest.contains_key(k) implies rest[k] < bound
            - 1 by {
            assert(m.contains_key(k) && k != top);
            assert(m[k] != m[top]);
        }
        lemma_distinct_below_bound(rest, (bound - 1) as nat);
        assert(rest.dom() =~= m.dom().remove(top));
    } else {
        assert forall|k: Seq<char>| #[trigger] m.contains_key(k) implies m[k] < bound - 1 by {
            assert(m[k] < bound);
        }
        lemma_distinct_below_bound(m, (bound - 1) as nat);
    }
}

/// A tuple never holds more names than slots.
pub proof fn lemma_names_fit_slots(r: Record)
    requires
        r.wf(),
    ensures
        r.names.len() <= r.values.len(),
{
    lemma_distinct_below_bound(r.names, r.values.len());
}

/// Every operation that changes a tuple keeps it well formed, whether it
/// succeeds or is refused.
pub proof fn lemma_operations_keep_wf(r: Record, name: Seq<char>, item: i32, items: Seq<i32>)
    requires
        r.wf(),
    ensures
        Record::empty().wf(),
        Record::unnamed(items).wf(),
        r.append_one(item).wf(),
        r.prepend_one(item).wf(),
        r.append_many(items).wf(),
        r.prepend_many(items).wf(),
        r.append_named(name, item).0.wf(),
        r.prepend_named(name, item).0.wf(),
{
    if !r.names.contains_key(name) {
        let back = r.append_named(name, item).0;
        assert(back.names.dom() =~= r.names.dom().insert(name));
        let front = r.prepend_named(name, item).0;
        assert(shifted(r.names).dom() =~= r.names.dom());
        assert(front.names.dom() =~= r.names.dom().insert(name));
        assert forall|a: Seq<char>, b: Seq<char>|
            #![trigger front.names[a], front.names[b]]
            front.names.contains_key(a) && front.names.contains_key(b) && a != b implies
            front.names[a] != front.names[b] by {
            if a != name && b != name {
                assert(r.names[a] != r.names[b]);
            }
        }
    }
}

/// A named insertion never changes a name that was already held, except
/// that an insertion at the front moves it along with its slot: the name
/// still stands for the same value.
pub proof fn lemma_named_insertion_keeps_names(
    r: Record,
    name: Seq<char>,
    item: i32,
    other: Seq<char>,
)
    requires
        r.wf(),
        r.names.contains_key(other),
        !r.names.contains_key(name),
    ensures
        r.append_named(name, item).0.get_named(other) == r.get_named(other),
        r.prepend_named(name, item).0.get_named(other) == r.get_named(other),
        r.append_named(name, item).0.get_named(name) == Some(item),
        r.prepend_named(name, item).0.get_named(name) == Some(item),
{
}

/// What was appended last is what the ordinal minus one points at.
pub proof fn lemma_appended_is_last(r: Record, item: i32)
    ensures
        r.append_one(item).get_ordinal(-1) == Some(item),
{
}

/// What was prepended last is what the ordinal one points at.
pub proof fn lemma_prepended_is_first(r: Record, item: i32)
    ensures
        r.prepend_one(item).get_ordinal(1) == Some(item),
{
}

/// Appending a batch is appending its items one by one, first to last.
pub proof fn lemma_append_many_is_repeated(r: Record, items: Seq<i32>, item: i32)
    ensures
        r.append_many(Seq::empty()) == r,
        r.append_many(items.push(item)) == r.append_many(items).append_one(item),
{
    assert(r.values + Seq::<i32>::empty() =~= r.values);
    assert(r.values + items.push(item) =~= (r.values + items).push(item));
}

/// Prepending a batch is prepending its items one by one, first to last, so
/// that each lands in front of those before it.
pub proof fn lemma_prepend_many_is_repeated(r: Record, items: Seq<i32>, item: i32)
    ensures
        r.prepend_many(Seq::empty()) == r,
        r.prepend_many(items.push(item)) == r.prepend_many(items).prepend_one(item),
{
    assert(Seq::<i32>::empty().reverse() + r.values =~= r.values);
    assert(items.push(item).reverse() + r.values =~= seq![item] + (items.reverse()
        + r.values));
}

/// After a batch was prepended, the ordinals from one on point at the items
/// of the batch, last to first.
pub proof fn lemma_prepend_many_reverses(r: Record, items: Seq<i32>, ordinal: int)
    requires
        1 <= ordinal <= items.len(),
    ensures
        r.prepend_many(items).get_ordinal(ordinal) == Some(items[items.len() - ordinal]),
{
}

/// Names take no part in the value of a tuple: two tuples of the same value
/// stay of the same value when the same item is appended to both, to one
/// under a name and to the other without.
pub proof fn lemma_names_do_not_count(a: Record, b: Record, name: Seq<char>, item: i32)
    requires
        a.same_value(b),
        !a.names.contains_key(name),
    ensures
        a.append_named(name, item).0.same_value(b.append_one(item)),
        a.prepend_named(name, item).0.same_value(b.prepend_one(item)),
{
}

/// Being of the same value is an equivalence.
pub proof fn lemma_same_value_is_equivalence(a: Record, b: Record, c: Record)
    ensures
        a.same_value(a),
        a.same_value(b) ==> b.same_value(a),
        a.same_value(b) && b.same_value(c) ==> a.same_value(c),
{
}

/// Once a named insertion has succeeded, the name is taken: a second
/// insertion under it, at either end, is refused and leaves the tuple as it
/// was.
pub proof fn lemma_name_is_taken_once(r: Record, name: Seq<char>, first: i32, second: i32)
    requires
        r.append_named(name, first).1 is Ok || r.prepend_named(name, first).1 is Ok,
    ensures
        ({
            let back = r.append_named(name, first).0;
            let front = r.prepend_named(name, first).0;
            let refused = Err::<(), TupleError>(TupleError::DuplicateName);
            &&& back.append_named(name, second) == (back, refused)
            &&& back.prepend_named(name, second) == (back, refused)
            &&& front.append_named(name, second) == (front, refused)
            &&& front.prepend_named(name, second) == (front, refused)
        }),
{
}

/// The values of a tuple are enough to build a tuple of the same value: one
/// that holds them without names.
pub proof fn lemma_values_rebuild_the_value(r: Record)
    ensures
        Record::unnamed(r.values).same_value(r),
        Record::unnamed(r.values).names == Map::<Seq<char>, nat>::empty(),
        Record::unnamed(r.values) == Record::empty().append_many(r.values),
{
    assert(Seq::<i32>::empty() + r.values =~= r.values);
}

/// A slice is refused exactly when its stride is zero.
pub proof fn lemma_slice_refuses_only_zero(r: Record, head: int, tail: int, stride: int)
    ensures
        r.slice(head, tail, stride) is Err <==> stride == 0,
        r.slice(head, tail, stride) is Err ==> r.slice(head, tail, stride) == Err::<
            Seq<i32>,
            TupleError,
        >(TupleError::InvalidStride),
{
}

/// Thinning out by one keeps everything.
proof fn lemma_every_first(s: Seq<i32>)
    ensures
        every_nth(s, 1) == s,
{
    assert(every_nth(s, 1) =~= s);
}

/// The slice from the first slot to the last with a stride of one is the
/// whole sequence, and with a stride of minus one the whole sequence back to
/// front.
pub proof fn lemma_whole_slice(values: Seq<i32>)
    ensures
        select(values, 1, -1, 1) == values,
        select(values, 1, -1, -1) == values.reverse(),
{
    let len = values.len();
    let w = window(values, slice_start(len, 1), slice_stop(len, -1));
    assert(w =~= values);
    lemma_every_first(w);
}

/// The slice from an ordinal to itself with a stride of one is the one slot
/// that the ordinal points at.
pub proof fn lemma_slice_of_one(r: Record, ordinal: int)
    requires
        r.get_ordinal(ordinal) is Some,
    ensures
        select(r.values, ordinal, ordinal, 1) == seq![r.get_ordinal(ordinal)->0],
{
    let len = r.values.len();
    let w = window(r.values, slice_start(len, ordinal), slice_stop(len, ordinal));
    assert(w =~= seq![r.get_ordinal(ordinal)->0]);
    lemma_every_first(w);
}

/// A stride and its negation select the same slots and hand them out in
/// opposite orders.
pub proof fn lemma_backward_is_forward_reversed(values: Seq<i32>, head: int, tail: int, stride: int)
    requires
        stride != 0,
    ensures
        select(values, head, tail, -stride) == select(values, head, tail, stride).reverse(),
{
    assert(magnitude(stride) == magnitude(-stride));
    let chosen = every_nth(
        window(values, slice_start(values.len(), head), slice_stop(values.len(), tail)),
        magnitude(stride),
    );
    assert(chosen.reverse().reverse() =~= chosen);
}

/// A slice never hands out more items than its window holds, and its window
/// never more than the tuple.
pub proof fn lemma_slice_is_bounded(values: Seq<i32>, head: int, tail: int, stride: int)
    requires
        stride != 0,
    ensures
        select(values, head, tail, stride).len() <= values.len(),
{
    let w = window(values, slice_start(values.len(), head), slice_stop(values.len(), tail));
    let d = magnitude(stride) as int;
    assert(w.len() <= values.len());
    assert((w.len() + d - 1) / d <= w.len()) by {
        if w.len() == 0 {
            vstd::arithmetic::div_mod::lemma_basic_div(d - 1, d);
        } else {
            vstd::arithmetic::div_mod::lemma_div_plus_one(w.len() - 1, d);
            vstd::arithmetic::div_mod::lemma_div_nonincreasing(w.len() - 1, d);
        }
    }
}

} // verus!
