//! State of the terminal dashboard.
use vstd::prelude::*;

verus! {

/// What the dashboard draws from: the samples received so far, oldest
/// first.
pub struct AppState<T> {
    pub history: Vec<T>,
}

impl<T> AppState<T> {
    /// A dashboard with no samples yet, with room reserved for `capacity`
    /// samples.
    pub fn new(capacity: usize) -> (state: Self)
        ensures
            state.history@ == Seq::<T>::empty(),
    {
        AppState { history: Vec::with_capacity(capacity) }
    }
}

} // verus!
