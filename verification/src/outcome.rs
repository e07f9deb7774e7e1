//! Results seen through the views of their values.

use vstd::prelude::*;

verus! {

/// A result with the views of its value and of its error.
pub open spec fn of<T: DeepView, E: DeepView>(r: Result<T, E>) -> Result<T::V, E::V> {
    match r {
        Ok(v) => Ok(v.deep_view()),
        Err(e) => Err(e.deep_view()),
    }
}

} // verus!
