//! The error taxonomy shared by the crate's components.

use vstd::prelude::*;

verus! {

/// Why an operation was refused or abandoned.
///
/// `NotMounted` and `NotFound` abort before any mutation;
/// `StorageUnavailable` reports a storage primitive that could not run at
/// all; `Dangerous` is the rollback orchestrator's terminal failure, after
/// which only manual recovery is allowed.
#[derive(Clone, Copy, PartialEq, Eq, Structural, Debug)]
pub enum CoreError {
    NotMounted,
    NotFound,
    StorageUnavailable,
    Dangerous,
}

impl CoreError {
    /// The fixed operator-facing description of this error.
    pub fn message(&self) -> (r: &'static str)
        ensures
            match self {
                CoreError::NotMounted => r@ == "target directory is not mounted as expected"@,
                CoreError::NotFound => r@ == "no snapshot matches the query"@,
                CoreError::StorageUnavailable => r@ == "storage primitive failed to run"@,
                CoreError::Dangerous => r@
                    == "no primary root present; manual recovery required"@,
            },
    {
        match self {
            CoreError::NotMounted => "target directory is not mounted as expected",
            CoreError::NotFound => "no snapshot matches the query",
            CoreError::StorageUnavailable => "storage primitive failed to run",
            CoreError::Dangerous => "no primary root present; manual recovery required",
        }
    }
}

} // verus!
