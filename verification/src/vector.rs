//! The persistent sequence that stores the slots of a tuple.
//!
//! The storage is `im::Vector`. Verus cannot look inside it, so this module
//! names what a vector holds and states, for each method the library calls,
//! what that method does to the contents. Nothing in this module is proved:
//! every contract here is taken on trust from the vector's implementation.

use im::Vector;
use vstd::prelude::*;

verus! {

/// `im::Vector`, a sequence that shares structure between its copies. Verus
/// carries values of it through without seeing inside.
#[verifier::external_type_specification]
#[verifier::external_body]
#[verifier::reject_recursive_types(A)]
pub struct ExVector<A>(Vector<A>);

/// The items that a vector holds, front to back.
pub uninterp spec fn vector_items(v: Vector<i32>) -> Seq<i32>;

/// How a vector of these items reads in `Debug` form.
pub uninterp spec fn debug_text(items: Seq<i32>) -> Seq<char>;

/// `Vector::new`: the vector it makes holds nothing.
#[verifier::external_body]
pub(crate) fn vector_new() -> (v: Vector<i32>)
    ensures
        vector_items(v) == Seq::<i32>::empty(),
{
    Vector::new()
}

/// `Vector::len`: the number of items held.
#[verifier::external_body]
pub(crate) fn vector_len(v: &Vector<i32>) -> (n: usize)
    ensures
        n == vector_items(*v).len(),
{
    v.len()
}

/// `Vector::get`: the item at `index`, or nothing when `index` is not below
/// the length.
#[verifier::external_body]
pub(crate) fn vector_get(v: &Vector<i32>, index: usize) -> (item: Option<&i32>)
    ensures
        item == if index < vector_items(*v).len() {
            Some(&vector_items(*v)[index as int])
        } else {
            None
        },
{
    v.get(index)
}

/// `Vector::get_mut`: the slot at `index`, to read and to write, or nothing
/// when `index` is not below the length. Whatever is written to the slot is
/// what the vector holds there afterwards; no other item changes.
#[verifier::external_body]
pub(crate) fn vector_get_mut(v: &mut Vector<i32>, index: usize) -> (slot: Option<&mut i32>)
    ensures
        match slot {
            Some(s) => {
                &&& index < vector_items(*old(v)).len()
                &&& *s == vector_items(*old(v))[index as int]
                &&& vector_items(*final(v)) == vector_items(*old(v)).update(index as int, *final(s))
            },
            None => {
                &&& index >= vector_items(*old(v)).len()
                &&& vector_items(*final(v)) == vector_items(*old(v))
            },
        },
{
    v.get_mut(index)
}

/// `Vector::push_back`: the new item becomes the last one, the others keep
/// their places.
#[verifier::external_body]
pub(crate) fn vector_push_back(v: &mut Vector<i32>, value: i32)
    ensures
        vector_items(*final(v)) == vector_items(*old(v)).push(value),
{
    v.push_back(value)
}

/// `Vector::push_front`: the new item becomes the first one, the others move
/// one place towards the back.
#[verifier::external_body]
pub(crate) fn vector_push_front(v: &mut Vector<i32>, value: i32)
    ensures
        vector_items(*final(v)) == seq![value] + vector_items(*old(v)),
{
    v.push_front(value)
}

/// `Vector`'s `==`: two vectors are equal when they hold equal items in the
/// same order. Whether they share memory plays no part.
#[verifier::external_body]
pub(crate) fn vector_eq(a: &Vector<i32>, b: &Vector<i32>) -> (same: bool)
    ensures
        same == (vector_items(*a) == vector_items(*b)),
{
    a == b
}

/// `Vector`'s `clone`: the copy holds the same items in the same order.
#[verifier::external_body]
pub(crate) fn vector_clone(v: &Vector<i32>) -> (copy: Vector<i32>)
    ensures
        vector_items(copy) == vector_items(*v),
{
    v.clone()
}

/// `Vector`'s `hash`: feeds the items to the hasher, front to back. What
/// the hasher makes of them is its own affair, so nothing is claimed.
#[verifier::external_body]
pub(crate) fn vector_hash<H: core::hash::Hasher>(v: &Vector<i32>, state: &mut H) {
    core::hash::Hash::hash(v, state)
}

/// `Vector`'s `Debug` form: a text that depends on the items alone.
#[verifier::external_body]
pub(crate) fn vector_debug(v: &Vector<i32>) -> (text: String)
    ensures
        text@ == debug_text(vector_items(*v)),
{
    format!("{:?}", v)
}

} // verus!
