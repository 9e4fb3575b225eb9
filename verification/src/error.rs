//! The ways in which an operation on the level can be refused.

use vstd::prelude::*;

verus! {

/// Why an operation was refused.
#[derive(Clone, Copy, Debug, PartialEq, Eq, Structural)]
pub enum LvlError {
    /// A coordinate lies outside the level, or a region is not a box
    /// inside it.
    OutOfBounds,
    /// A material id or name is not in the registry.
    UnknownMaterial,
    /// A material with the same id or the same name is already registered.
    DuplicateRegistration,
    /// A sampled field does not hold one sample per cell of the level.
    FieldMismatch,
}

} // verus!
