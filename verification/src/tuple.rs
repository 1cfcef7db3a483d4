//! The tuple: an ordered run of slots that can be reached by offset, by
//! ordinal or by name.

use crate::cursor::Cursor;
use crate::error::TupleError;
use crate::iter::{items_at, NyarTupleEdit, NyarTupleView};
use crate::names::NameIndex;
use crate::ordinal::{resolve, resolve_offset};
use crate::record::Record;
use crate::slice::{lemma_select_by_offsets, select, select_offsets};
use crate::vector::{
    debug_text, vector_clone, vector_debug, vector_eq, vector_get, vector_get_mut, vector_hash,
    vector_items, vector_len, vector_new, vector_push_back, vector_push_front,
};
use im::Vector;
use vstd::prelude::*;

verus! {

/// A tuple of `i32` values in which some slots may carry a name.
///
/// A tuple only grows: slots are added at the front or at the back and never
/// taken away. Its value, `tuple@`, is a [`Record`].
pub struct NyarTuple {
    pub(crate) raw: Vector<i32>,
    pub(crate) names: NameIndex,
}

impl View for NyarTuple {
    type V = Record;

    closed spec fn view(&self) -> Record {
        Record { values: vector_items(self.raw), names: self.names@ }
    }
}

impl NyarTuple {
    /// The invariant of a tuple, which every function of this type keeps.
    pub closed spec fn wf(&self) -> bool {
        &&& self.names.wf()
        &&& self@.wf()
    }

    /// The value of a well-formed tuple is a well-formed record.
    pub proof fn lemma_wf_record(&self)
        requires
            self.wf(),
        ensures
            self@.wf(),
    {
    }

    /// The tuple without slots.
    pub fn new() -> (tuple: Self)
        ensures
            tuple.wf(),
            tuple@ == Record::empty(),
    {
        let tuple = NyarTuple { raw: vector_new(), names: NameIndex::new() };
        proof {
            tuple.names.lemma_finite();
        }
        tuple
    }

    /// The tuple that holds `items` in their order, none of them named.
    pub fn from_iter(items: Vec<i32>) -> (tuple: Self)
        ensures
            tuple.wf(),
            tuple@ == Record::unnamed(items@),
    {
        let mut tuple = Self::new();
        tuple.append_many(items);
        proof {
            assert(Seq::<i32>::empty() + items@ =~= items@);
        }
        tuple
    }

    /// The number of slots.
    pub fn len(&self) -> (n: usize)
        ensures
            n == self@.values.len(),
    {
        vector_len(&self.raw)
    }

    /// The offset that `ordinal` stands for. It is not held against the
    /// number of slots: a positive ordinal past the end still has an offset.
    pub fn cast_offset(&self, ordinal: isize) -> (offset: Option<usize>)
        ensures
            match offset {
                Some(o) => resolve(self@.values.len(), ordinal as int) == Some(o as nat),
                None => resolve(self@.values.len(), ordinal as int) is None,
            },
    {
        resolve_offset(vector_len(&self.raw), ordinal)
    }

    /// The value at `offset`, if there is a slot there.
    pub fn get_offset(&self, offset: usize) -> (item: Option<&i32>)
        ensures
            match item {
                Some(value) => self@.get_offset(offset as nat) == Some(*value),
                None => self@.get_offset(offset as nat) is None,
            },
    {
        vector_get(&self.raw, offset)
    }

    /// The value that `ordinal` points at, if it points at a slot.
    pub fn get_ordinal(&self, ordinal: isize) -> (item: Option<&i32>)
        ensures
            match item {
                Some(value) => self@.get_ordinal(ordinal as int) == Some(*value),
                None => self@.get_ordinal(ordinal as int) is None,
            },
    {
        match self.cast_offset(ordinal) {
            Some(offset) => self.get_offset(offset),
            None => None,
        }
    }

    /// The value in the slot that `name` stands for, if the name is known.
    pub fn get_named(&self, name: &str) -> (item: Option<&i32>)
        requires
            self.wf(),
        ensures
            match item {
                Some(value) => self@.get_named(name@) == Some(*value),
                None => self@.get_named(name@) is None,
            },
            item is Some <==> self@.names.contains_key(name@),
    {
        match self.names.lookup(name) {
            Some(offset) => vector_get(&self.raw, offset),
            None => None,
        }
    }

    /// A view of the slots from the one that `head` points at to the one
    /// that `tail` points at, both included, taking every `step`-th of them.
    /// A negative `step` hands the same slots out back to front. A `step` of
    /// zero is refused.
    pub fn get_range(&self, head: isize, tail: isize, step: isize) -> (view: Result<
        NyarTupleView<'_>,
        TupleError,
    >)
        ensures
            match (view, self@.slice(head as int, tail as int, step as int)) {
                (Ok(v), Ok(items)) => v@ == items,
                (Err(e), Err(refusal)) => e == refusal,
                _ => false,
            },
    {
        let len: usize = vector_len(&self.raw);
        match Cursor::select(len, head, tail, step) {
            Ok(cursor) => {
                proof {
                    let values = vector_items(self.raw);
                    lemma_select_by_offsets(values, head as int, tail as int, step as int);
                    assert(items_at(values, cursor.offsets()) =~= select(
                        values,
                        head as int,
                        tail as int,
                        step as int,
                    ));
                }
                Ok(NyarTupleView::new(&self.raw, cursor))
            },
            Err(e) => Err(e),
        }
    }

    /// The slot at `offset`, to read and to write, if there is one.
    pub fn get_offset_mut(&mut self, offset: usize) -> (slot: Option<&mut i32>)
        requires
            old(self).wf(),
        ensures
            final(self).wf(),
            final(self)@.names == old(self)@.names,
            match slot {
                Some(s) => {
                    &&& old(self)@.get_offset(offset as nat) == Some(*s)
                    &&& final(self)@.values == old(self)@.values.update(offset as int, *final(s))
                },
                None => {
                    &&& old(self)@.get_offset(offset as nat) is None
                    &&& final(self)@.values == old(self)@.values
                },
            },
    {
        vector_get_mut(&mut self.raw, offset)
    }

    /// An edit of the slots that `get_range` would give a view of, in the
    /// same order. While the edit lives the tuple cannot be reached in any
    /// other way; afterwards the tuple holds what the edit made of its
    /// slots, under the names that it had. A `step` of zero is refused.
    pub fn get_range_mut(&mut self, head: isize, tail: isize, step: isize) -> (edit: Result<
        NyarTupleEdit<'_>,
        TupleError,
    >)
        requires
            old(self).wf(),
        ensures
            final(self)@.names == old(self)@.names,
            final(self)@.values.len() == old(self)@.values.len() ==> final(self).wf(),
            match (edit, old(self)@.slice(head as int, tail as int, step as int)) {
                (Ok(e), Ok(items)) => {
                    &&& e.wf()
                    &&& e@ == items
                    &&& e.values() == old(self)@.values
                    &&& e.cursor.offsets() == select_offsets(
                        old(self)@.values.len(),
                        head as int,
                        tail as int,
                        step as int,
                    )
                    &&& final(self)@.values == vector_items(*final(e.raw))
                },
                (Err(e), Err(refusal)) => e == refusal && final(self)@ == old(self)@,
                _ => false,
            },
    {
        let len: usize = vector_len(&self.raw);
        match Cursor::select(len, head, tail, step) {
            Ok(cursor) => {
                proof {
                    let values = vector_items(self.raw);
                    lemma_select_by_offsets(values, head as int, tail as int, step as int);
                    assert(items_at(values, cursor.offsets()) =~= select(
                        values,
                        head as int,
                        tail as int,
                        step as int,
                    ));
                }
                Ok(NyarTupleEdit { raw: &mut self.raw, cursor })
            },
            Err(e) => Err(e),
        }
    }

    /// Whether the two tuples hold the same values in the same order.
    pub(crate) fn same_values(&self, other: &Self) -> (same: bool)
        ensures
            same == self@.same_value(other@),
    {
        vector_eq(&self.raw, &other.raw)
    }

    /// The tuple in `Debug` form: the list of its values. Names do not show.
    pub fn debug_string(&self) -> (text: String)
        ensures
            text@ == debug_text(self@.values),
    {
        vector_debug(&self.raw)
    }

    /// The values of all slots, front to back. Names are not part of it.
    pub fn to_vec(&self) -> (values: Vec<i32>)
        ensures
            values@ == self@.values,
    {
        let len: usize = vector_len(&self.raw);
        let mut values: Vec<i32> = Vec::new();
        let mut i: usize = 0;
        while i < len
            invariant
                i <= len,
                len == vector_items(self.raw).len(),
                values@ == vector_items(self.raw).subrange(0, i as int),
            decreases len - i,
        {
            match vector_get(&self.raw, i) {
                Some(value) => values.push(*value),
                None => {},
            }
            proof {
                assert(values@ =~= vector_items(self.raw).subrange(0, i + 1));
            }
            i += 1;
        }
        proof {
            assert(values@ =~= vector_items(self.raw));
        }
        values
    }

    /// Adds `item` in a new last slot and makes `name` stand for it. A name
    /// that the tuple already holds is refused, and the tuple stays as it
    /// was.
    pub fn append_named(&mut self, name: &str, item: i32) -> (done: Result<(), TupleError>)
        requires
            old(self).wf(),
        ensures
            final(self).wf(),
            (final(self)@, done) == old(self)@.append_named(name@, item),
    {
        if self.names.lookup(name).is_some() {
            return Err(TupleError::DuplicateName);
        }
        let at: usize = vector_len(&self.raw);
        vector_push_back(&mut self.raw, item);
        self.names.insert(name, at);
        proof {
            self.names.lemma_finite();
        }
        Ok(())
    }

    /// Adds `item` in a new last slot. Names are left alone.
    pub fn append_one(&mut self, item: i32)
        requires
            old(self).wf(),
        ensures
            final(self).wf(),
            final(self)@ == old(self)@.append_one(item),
    {
        vector_push_back(&mut self.raw, item)
    }

    /// Adds `items` one by one, each in a new last slot.
    pub fn append_many(&mut self, items: Vec<i32>)
        requires
            old(self).wf(),
        ensures
            final(self).wf(),
            final(self)@ == old(self)@.append_many(items@),
    {
        let mut i: usize = 0;
        while i < items.len()
            invariant
                i <= items@.len(),
                self.wf(),
                self@ == old(self)@.append_many(items@.subrange(0, i as int)),
            decreases items@.len() - i,
        {
            self.append_one(items[i]);
            proof {
                assert(items@.subrange(0, i + 1) =~= items@.subrange(0, i as int).push(
                    items@[i as int],
                ));
                assert(self@.values =~= old(self)@.values + items@.subrange(0, i + 1));
            }
            i += 1;
        }
        proof {
            assert(items@.subrange(0, i as int) =~= items@);
        }
    }

    /// Adds `item` in a new first slot and makes `name` stand for it. Every
    /// other name follows its slot one place towards the back. A name that
    /// the tuple already holds is refused, and the tuple stays as it was.
    pub fn prepend_named(&mut self, name: &str, item: i32) -> (done: Result<(), TupleError>)
        requires
            old(self).wf(),
        ensures
            final(self).wf(),
            (final(self)@, done) == old(self)@.prepend_named(name@, item),
    {
        if self.names.lookup(name).is_some() {
            return Err(TupleError::DuplicateName);
        }
        vector_push_front(&mut self.raw, item);
        // The new length fits a `usize`, so every old offset can move up.
        let _len: usize = vector_len(&self.raw);
        self.names.shift();
        self.names.insert(name, 0);
        proof {
            self.names.lemma_finite();
        }
        Ok(())
    }

    /// Adds `item` in a new first slot. Names are left alone: each keeps its
    /// offset.
    pub fn prepend_one(&mut self, item: i32)
        requires
            old(self).wf(),
        ensures
            final(self).wf(),
            final(self)@ == old(self)@.prepend_one(item),
    {
        vector_push_front(&mut self.raw, item)
    }

    /// Adds `items` one by one, each in a new first slot: the last of them
    /// ends up in front.
    pub fn prepend_many(&mut self, items: Vec<i32>)
        requires
            old(self).wf(),
        ensures
            final(self).wf(),
            final(self)@ == old(self)@.prepend_many(items@),
    {
        let mut i: usize = 0;
        while i < items.len()
            invariant
                i <= items@.len(),
                self.wf(),
                self@ == old(self)@.prepend_many(items@.subrange(0, i as int)),
            decreases items@.len() - i,
        {
            self.prepend_one(items[i]);
            proof {
                let done = items@.subrange(0, i as int);
                let more = items@.subrange(0, i + 1);
                assert(more =~= done.push(items@[i as int]));
                assert(more.reverse() =~= seq![items@[i as int]] + done.reverse());
                assert(self@.values =~= more.reverse() + old(self)@.values);
            }
            i += 1;
        }
        proof {
            assert(items@.subrange(0, i as int) =~= items@);
        }
    }
}

impl Default for NyarTuple {
    /// The tuple without slots.
    fn default() -> (tuple: Self)
        ensures
            tuple.wf(),
            tuple@ == Record::empty(),
    {
        Self::new()
    }
}

impl Clone for NyarTuple {
    /// A tuple of its own with the same slots and names. What is later done
    /// to either does not show in the other.
    fn clone(&self) -> (copy: Self)
        ensures
            copy@ == self@,
            self.wf() ==> copy.wf(),
    {
        NyarTuple { raw: vector_clone(&self.raw), names: self.names.duplicate() }
    }
}

impl core::hash::Hash for NyarTuple {
    /// Feeds the values to the hasher, front to back. Names are not fed:
    /// tuples of the same value hash alike.
    fn hash<H: core::hash::Hasher>(&self, state: &mut H) {
        vector_hash(&self.raw, state)
    }
}

} // verus!
