use vstd::prelude::*;

verus! {

/// The recoverable conditions raised by the containers of this crate.
#[derive(Debug, Clone, Copy, PartialEq, Eq, Structural)]
pub enum Error {
    /// An insertion into a full container under the reject policy.
    Full,
    /// A bulk load whose source holds more elements than the capacity.
    CapacityMismatch,
    /// An access at a logical position at or past the length.
    IndexOutOfRange,
}

} // verus!
