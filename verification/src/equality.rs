//! When two tuples are the same value.

use crate::tuple::NyarTuple;
use vstd::prelude::*;

verus! {

impl PartialEq for NyarTuple {
    /// Two tuples are equal when they hold the same values in the same
    /// order, whatever names they hold.
    fn eq(&self, other: &Self) -> (same: bool) {
        self.same_values(other)
    }
}

impl vstd::std_specs::cmp::PartialEqSpecImpl for NyarTuple {
    open spec fn obeys_eq_spec() -> bool {
        true
    }

    open spec fn eq_spec(&self, other: &Self) -> bool {
        self@.same_value(other@)
    }
}

impl Eq for NyarTuple {

}

} // verus!
