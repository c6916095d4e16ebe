//! Abstractions shared by the panel drivers.
use vstd::prelude::*;

verus! {

/// A controller command that is sent as one address byte.
pub trait Command: Copy {
    /// The byte that is sent for the command.
    spec fn code(self) -> u8;

    /// Returns the byte that is sent for the command.
    fn address(self) -> (r: u8)
        ensures
            r == self.code(),
    ;
}

} // verus!
