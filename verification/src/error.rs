//! The ways in which an operation on a tuple can be malformed.

use vstd::prelude::*;

verus! {

/// Why an operation was refused. Looking for something that is not there is
/// never an error: lookups answer `None` instead.
#[derive(Clone, Copy, Debug, PartialEq, Eq, Structural)]
pub enum TupleError {
    /// A named insertion used a name that the tuple already holds.
    DuplicateName,
    /// A slice was asked for with a stride of zero.
    InvalidStride,
}

impl TupleError {
    /// A short, fixed text that says which error this is.
    pub fn message(&self) -> (text: &'static str)
        ensures
            text@ == match self {
                TupleError::DuplicateName => "KeyAlreadyExists"@,
                TupleError::InvalidStride => "InvalidStride"@,
            },
    {
        match self {
            TupleError::DuplicateName => "KeyAlreadyExists",
            TupleError::InvalidStride => "InvalidStride",
        }
    }
}

} // verus!
