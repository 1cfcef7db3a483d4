//! Views: what a slice of a tuple gives to read or to edit.

use crate::cursor::Cursor;
use crate::vector::{vector_get, vector_get_mut, vector_items};
use im::Vector;
use vstd::prelude::*;

verus! {

/// The items of `values` at `offsets`.
pub open spec fn items_at(values: Seq<i32>, offsets: Seq<nat>) -> Seq<i32> {
    offsets.map_values(|at: nat| values[at as int])
}

/// A read-only view of the slots that a slice selects.
///
/// A view can be drained from either end. Its value, `view@`, is the sequence
/// of items that it has yet to hand out, in the order in which `next` does.
/// A view is not rewound: to read a slice again, ask for it again.
pub struct NyarTupleView<'i> {
    raw: &'i Vector<i32>,
    cursor: Cursor,
}

impl<'i> View for NyarTupleView<'i> {
    type V = Seq<i32>;

    closed spec fn view(&self) -> Seq<i32> {
        items_at(vector_items(*self.raw), self.cursor.offsets())
    }
}

impl<'i> NyarTupleView<'i> {
    #[verifier::type_invariant]
    spec fn inv(self) -> bool {
        self.cursor.within(vector_items(*self.raw).len())
    }

    /// The view of the slots of `raw` that `cursor` passes over.
    pub(crate) fn new(raw: &'i Vector<i32>, cursor: Cursor) -> (view: Self)
        requires
            cursor.within(vector_items(*raw).len()),
        ensures
            view@ == items_at(vector_items(*raw), cursor.offsets()),
    {
        NyarTupleView { raw, cursor }
    }

    /// The number of items that are left.
    pub fn len(&self) -> (n: usize)
        ensures
            n == self@.len(),
    {
        self.cursor.len()
    }

    /// Hands out the next item, or nothing once the view is drained.
    pub fn next(&mut self) -> (item: Option<&'i i32>)
        ensures
            match item {
                Some(value) => {
                    &&& old(self)@.len() > 0
                    &&& *value == old(self)@.first()
                    &&& final(self)@ == old(self)@.drop_first()
                },
                None => old(self)@.len() == 0 && final(self)@ == old(self)@,
            },
    {
        proof {
            use_type_invariant(&*self);
        }
        let mut cursor = self.cursor;
        match cursor.next() {
            Some(at) => {
                proof {
                    let before = self.cursor.offsets();
                    assert(before[0] < vector_items(*self.raw).len());
                    assert forall|i: int| 0 <= i < cursor.offsets().len() implies
                        #[trigger] cursor.offsets()[i] < vector_items(*self.raw).len() by {
                        assert(cursor.offsets()[i] == before[i + 1]);
                    }
                    assert(items_at(vector_items(*self.raw), cursor.offsets()) =~= items_at(
                        vector_items(*self.raw),
                        before,
                    ).drop_first());
                }
                *self = NyarTupleView { raw: self.raw, cursor };
                vector_get(self.raw, at)
            },
            None => None,
        }
    }

    /// Hands out the last of the items that `next` would reach, or nothing
    /// once the view is drained.
    pub fn next_back(&mut self) -> (item: Option<&'i i32>)
        ensures
            match item {
                Some(value) => {
                    &&& old(self)@.len() > 0
                    &&& *value == old(self)@.last()
                    &&& final(self)@ == old(self)@.drop_last()
                },
                None => old(self)@.len() == 0 && final(self)@ == old(self)@,
            },
    {
        proof {
            use_type_invariant(&*self);
        }
        let mut cursor = self.cursor;
        match cursor.next_back() {
            Some(at) => {
                proof {
                    let before = self.cursor.offsets();
                    assert(before[before.len() - 1] < vector_items(*self.raw).len());
                    assert forall|i: int| 0 <= i < cursor.offsets().len() implies
                        #[trigger] cursor.offsets()[i] < vector_items(*self.raw).len() by {
                        assert(cursor.offsets()[i] == before[i]);
                    }
                    assert(items_at(vector_items(*self.raw), cursor.offsets()) =~= items_at(
                        vector_items(*self.raw),
                        before,
                    ).drop_last());
                }
                *self = NyarTupleView { raw: self.raw, cursor };
                vector_get(self.raw, at)
            },
            None => None,
        }
    }

    /// Drains the view: the items that are left, in the order in which
    /// `next` would have handed them out.
    pub fn collect(self) -> (items: Vec<i32>)
        ensures
            items@ == self@,
    {
        let mut view = self;
        let mut items: Vec<i32> = Vec::new();
        while view.len() > 0
            invariant
                items@ + view@ == self@,
            decreases view@.len(),
        {
            let ghost before = view@;
            match view.next() {
                Some(item) => items.push(*item),
                None => {},
            }
            proof {
                assert(items@ + view@ =~= items@.drop_last() + before);
            }
        }
        proof {
            assert(items@ + view@ =~= items@);
        }
        items
    }
}

/// A view through which the slots that a slice selects can be overwritten.
///
/// While it lives, an edit borrows the slots of its tuple exclusively: no
/// other view of the tuple can exist beside it. Its value, `edit@`, is the
/// sequence of items in the slots that it has yet to hand out.
///
/// The fields are public so that contracts can speak of what the borrowed
/// slots will hold once the edit has ended. An edit is made by
/// `NyarTuple::get_range_mut`, which is the only way to make one whose
/// offsets are known to fit its slots.
pub struct NyarTupleEdit<'i> {
    /// The slots of the tuple that is edited.
    pub raw: &'i mut Vector<i32>,
    /// The offsets of the slots that are yet to be handed out.
    pub cursor: Cursor,
}

impl<'i> View for NyarTupleEdit<'i> {
    type V = Seq<i32>;

    open spec fn view(&self) -> Seq<i32> {
        items_at(self.values(), self.cursor.offsets())
    }
}

impl<'i> NyarTupleEdit<'i> {
    /// What all slots of the edited tuple hold at present.
    pub open spec fn values(&self) -> Seq<i32> {
        vector_items(*self.raw)
    }

    /// Every offset that is yet to be handed out is the offset of a slot.
    pub open spec fn wf(&self) -> bool {
        self.cursor.within(self.values().len())
    }

    /// The number of slots that are left.
    pub fn len(&self) -> (n: usize)
        ensures
            n == self@.len(),
    {
        self.cursor.len()
    }

    /// Hands out the next slot, or nothing once the edit is drained. What is
    /// written to the slot is what the tuple then holds there.
    pub fn next(&mut self) -> (slot: Option<&mut i32>)
        requires
            old(self).wf(),
        ensures
            final(self).wf(),
            *final(final(self).raw) == *final(old(self).raw),
            match slot {
                Some(s) => {
                    let at = old(self).cursor.offsets().first() as int;
                    &&& old(self).cursor.offsets().len() > 0
                    &&& final(self).cursor.offsets() == old(self).cursor.offsets().drop_first()
                    &&& *s == old(self).values()[at]
                    &&& final(self).values() == old(self).values().update(at, *final(s))
                },
                None => {
                    &&& old(self).cursor.offsets().len() == 0
                    &&& final(self).cursor == old(self).cursor
                    &&& final(self).values() == old(self).values()
                },
            },
    {
        let ghost before = self.cursor.offsets();
        match self.cursor.next() {
            Some(at) => {
                proof {
                    assert(before[0] < self.values().len());
                    assert forall|i: int| 0 <= i < self.cursor.offsets().len() implies
                        #[trigger] self.cursor.offsets()[i] < self.values().len() by {
                        assert(self.cursor.offsets()[i] == before[i + 1]);
                    }
                }
                vector_get_mut(&mut *self.raw, at)
            },
            None => None,
        }
    }

    /// Hands out the last of the slots that `next` would reach, or nothing
    /// once the edit is drained. What is written to the slot is what the
    /// tuple then holds there.
    pub fn next_back(&mut self) -> (slot: Option<&mut i32>)
        requires
            old(self).wf(),
        ensures
            final(self).wf(),
            *final(final(self).raw) == *final(old(self).raw),
            match slot {
                Some(s) => {
                    let at = old(self).cursor.offsets().last() as int;
                    &&& old(self).cursor.offsets().len() > 0
                    &&& final(self).cursor.offsets() == old(self).cursor.offsets().drop_last()
                    &&& *s == old(self).values()[at]
                    &&& final(self).values() == old(self).values().update(at, *final(s))
                },
                None => {
                    &&& old(self).cursor.offsets().len() == 0
                    &&& final(self).cursor == old(self).cursor
                    &&& final(self).values() == old(self).values()
                },
            },
    {
        let ghost before = self.cursor.offsets();
        match self.cursor.next_back() {
            Some(at) => {
                proof {
                    assert(before[before.len() - 1] < self.values().len());
                    assert forall|i: int| 0 <= i < self.cursor.offsets().len() implies
                        #[trigger] self.cursor.offsets()[i] < self.values().len() by {
                        assert(self.cursor.offsets()[i] == before[i]);
                    }
                }
                vector_get_mut(&mut *self.raw, at)
            },
            None => None,
        }
    }
}

} // verus!
