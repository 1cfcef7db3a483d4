//! Ordinals: signed positions that count from one at the front and from minus
//! one at the back.

use vstd::prelude::*;

verus! {

/// The offset that `ordinal` stands for in a sequence of `len` slots.
///
/// A positive ordinal counts from the front and is never held against `len`;
/// a negative one counts from the back and is absent once it reaches past the
/// front. Zero stands for nothing.
pub open spec fn resolve(len: nat, ordinal: int) -> Option<nat> {
    if ordinal > 0 {
        Some((ordinal - 1) as nat)
    } else if ordinal < 0 && len + ordinal >= 0 {
        Some((len + ordinal) as nat)
    } else {
        None
    }
}

/// Computes [`resolve`] on machine integers.
pub fn resolve_offset(len: usize, ordinal: isize) -> (offset: Option<usize>)
    ensures
        match offset {
            Some(o) => resolve(len as nat, ordinal as int) == Some(o as nat),
            None => resolve(len as nat, ordinal as int) is None,
        },
{
    if ordinal > 0 {
        Some((ordinal - 1) as usize)
    } else if ordinal < 0 {
        // `-ordinal` does not fit when `ordinal` is the least `isize`.
        let before_last: usize = (-(ordinal + 1)) as usize;
        if before_last < len {
            Some(len - 1 - before_last)
        } else {
            None
        }
    } else {
        None
    }
}

/// Zero is no ordinal, whatever the length.
pub proof fn lemma_zero_resolves_to_nothing(len: nat)
    ensures
        resolve(len, 0) is None,
{
}

/// Minus one is the last slot of a sequence that has one.
pub proof fn lemma_minus_one_resolves_to_last(len: nat)
    requires
        len > 0,
    ensures
        resolve(len, -1) == Some((len - 1) as nat),
{
}

/// An ordinal and the negative ordinal that names the same slot resolve alike.
pub proof fn lemma_front_and_back_ordinals_agree(len: nat, ordinal: int)
    requires
        1 <= ordinal <= len,
    ensures
        resolve(len, ordinal) == resolve(len, ordinal - len - 1),
{
}

} // verus!
