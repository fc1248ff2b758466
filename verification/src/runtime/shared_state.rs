//! Failures of the type-keyed shared state.
use vstd::prelude::*;

verus! {

/// Failures of the shared resource map.
#[derive(Debug, Clone, Copy, PartialEq, Eq, Structural)]
pub enum SharedStateError {
    /// A resource of that type is already stored.
    AlreadyExists,
    /// No resource of that type is stored.
    Missing,
    /// The stored resource is not of the requested type.
    TypeMismatch,
    /// The map's lock was poisoned.
    Poisoned,
}

impl SharedStateError {
    /// The error's message.
    pub fn message(&self) -> (r: &'static str)
        ensures
            r@ == match *self {
                SharedStateError::AlreadyExists => "resource already exists"@,
                SharedStateError::Missing => "resource missing"@,
                SharedStateError::TypeMismatch => "resource type mismatch"@,
                SharedStateError::Poisoned => "shared state poisoned"@,
            },
    {
        match self {
            SharedStateError::AlreadyExists => "resource already exists",
            SharedStateError::Missing => "resource missing",
            SharedStateError::TypeMismatch => "resource type mismatch",
            SharedStateError::Poisoned => "shared state poisoned",
        }
    }
}

} // verus!
