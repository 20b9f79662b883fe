use vstd::prelude::*;

verus! {

/// Failure marker returned by `ThreadPool::build` when the requested size is
/// not positive. It carries no data beyond its kind.
#[derive(Clone, Copy, Debug, PartialEq, Eq, Structural)]
pub struct PoolCreationError;

impl PoolCreationError {
    /// The textual form of this error.
    pub fn message(&self) -> (s: String)
        ensures
            s@ == "PoolCreationError"@,
    {
        "PoolCreationError".to_owned()
    }
}

} // verus!
