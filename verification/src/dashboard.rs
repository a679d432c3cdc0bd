//! State of the monitor dashboard that outlives a session.
use vstd::prelude::*;

verus! {

/// UI state kept between sessions.
#[derive(Debug, Clone, Default)]
pub struct UIState {}

/// The default value of `T`.
pub fn default<T: Default>() -> (r: T)
    ensures
        T::default.ensures((), r),
{
    T::default()
}

} // verus!
