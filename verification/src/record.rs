//! The mathematical model of a tuple: a sequence of values and a map from
//! names to offsets.
//!
//! Every operation of the executable tuple is stated here as a function on
//! the model, and the laws that relate the operations are proved here.

use crate::error::TupleError;
use crate::ordinal::resolve;
use crate::slice::select;
use vstd::prelude::*;

verus! {

/// The map in which every offset has moved one place towards the back.
pub open spec fn shifted(names: Map<Seq<char>, nat>) -> Map<Seq<char>, nat> {
    Map::new(|name: Seq<char>| names.contains_key(name), |name: Seq<char>| names[name] + 1)
}

/// What a tuple is, apart from how it is stored.
#[verifier::ext_equal]
pub struct Record {
    /// The values of the slots, front to back.
    pub values: Seq<i32>,
    /// The offset that each name stands for.
    pub names: Map<Seq<char>, nat>,
}

impl Record {
    /// The record without slots and without names.
    pub open spec fn empty() -> Record {
        Record { values: Seq::empty(), names: Map::empty() }
    }

    /// The record that holds `values`, none of them named.
    pub open spec fn unnamed(values: Seq<i32>) -> Record {
        Record { values, names: Map::empty() }
    }

    /// There are finitely many names, each stands for the offset of a slot,
    /// and no two stand for the same one.
    pub open spec fn wf(self) -> bool {
        &&& self.names.dom().finite()
        &&& forall|name: Seq<char>| #[trigger]
            self.names.contains_key(name) ==> self.names[name] < self.values.len()
        &&& forall|a: Seq<char>, b: Seq<char>|
            #![trigger self.names[a], self.names[b]]
            self.names.contains_key(a) && self.names.contains_key(b) && a != b
                ==> self.names[a] != self.names[b]
    }

    /// Two records are the same value when they hold the same values in the
    /// same order. Names take no part in it.
    pub open spec fn same_value(self, other: Record) -> bool {
        self.values == other.values
    }

    /// The value at `offset`, if there is a slot there.
    pub open spec fn get_offset(self, offset: nat) -> Option<i32> {
        if offset < self.values.len() {
            Some(self.values[offset as int])
        } else {
            None
        }
    }

    /// The value that `ordinal` points at, if it points at a slot.
    pub open spec fn get_ordinal(self, ordinal: int) -> Option<i32> {
        match resolve(self.values.len(), ordinal) {
            Some(offset) => self.get_offset(offset),
            None => None,
        }
    }

    /// The value at the offset that `name` stands for, if the name is known
    /// and a slot is there.
    pub open spec fn get_named(self, name: Seq<char>) -> Option<i32> {
        if self.names.contains_key(name) {
            self.get_offset(self.names[name])
        } else {
            None
        }
    }

    /// The record with `item` in a new last slot. Names are left alone.
    pub open spec fn append_one(self, item: i32) -> Record {
        Record { values: self.values.push(item), names: self.names }
    }

    /// The record with `item` in a new first slot. Names are left alone:
    /// each keeps its offset, and so stands for the value that has moved
    /// there.
    pub open spec fn prepend_one(self, item: i32) -> Record {
        Record { values: seq![item] + self.values, names: self.names }
    }

    /// The record after `items` were appended one by one.
    pub open spec fn append_many(self, items: Seq<i32>) -> Record {
        Record { values: self.values + items, names: self.names }
    }

    /// The record after `items` were prepended one by one: the last of them
    /// ends up in front.
    pub open spec fn prepend_many(self, items: Seq<i32>) -> Record {
        Record { values: items.reverse() + self.values, names: self.names }
    }

    /// The record and the verdict after an attempt to append `item` under
    /// `name`. A name that is already held leaves the record as it was.
    pub open spec fn append_named(self, name: Seq<char>, item: i32) -> (Record, Result<
        (),
        TupleError,
    >) {
        if self.names.contains_key(name) {
            (self, Err(TupleError::DuplicateName))
        } else {
            (
                Record {
                    values: self.values.push(item),
                    names: self.names.insert(name, self.values.len()),
                },
                Ok(()),
            )
        }
    }

    /// The record and the verdict after an attempt to prepend `item` under
    /// `name`. Every name that was held follows its slot one place towards
    /// the back. A name that is already held leaves the record as it was.
    pub open spec fn prepend_named(self, name: Seq<char>, item: i32) -> (Record, Result<
        (),
        TupleError,
    >) {
        if self.names.contains_key(name) {
            (self, Err(TupleError::DuplicateName))
        } else {
            (
                Record {
                    values: seq![item] + self.values,
                    names: shifted(self.names).insert(name, 0),
                },
                Ok(()),
            )
        }
    }

    /// The items of a slice in the order in which its view hands them out,
    /// or the refusal of a stride of zero.
    pub open spec fn slice(self, head: int, tail: int, stride: int) -> Result<
        Seq<i32>,
        TupleError,
    > {
        if stride == 0 {
            Err(TupleError::InvalidStride)
        } else {
            Ok(select(self.values, head, tail, stride))
        }
    }
}

} // verus!
