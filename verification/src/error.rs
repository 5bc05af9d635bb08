//! The failures that the pin operations and the device protocol report.

use vstd::prelude::*;

verus! {

/// Why an operation was refused.
#[derive(Clone, Copy, Debug, PartialEq, Eq, Structural)]
pub enum Error {
    /// A pin number addresses a register that the controller does not have.
    Fault,
    /// The command byte of a write is neither `'0'` nor `'1'`.
    InvalidArgument,
}

} // verus!
