//! An ordered tuple of values whose slots can be reached by offset, by signed
//! ordinal or by an optional unique name, and sliced into views that walk a
//! window of slots forwards or backwards with any stride.
//!
//! The slots are kept in a persistent vector. Everything that the library
//! decides (how ordinals resolve, how names follow their slots, what a slice
//! selects) is specified on a mathematical model, [`Record`], and proved.

pub mod cursor;
mod equality;
pub mod error;
pub mod iter;
pub mod laws;
mod names;
pub mod ordinal;
pub mod record;
pub mod slice;
pub mod tuple;
pub mod vector;

pub use crate::cursor::Cursor;
pub use crate::error::TupleError;
pub use crate::iter::{NyarTupleEdit, NyarTupleView};
pub use crate::record::Record;
pub use crate::tuple::NyarTuple;
