//! The ways in which an operation on a rope can be refused.

use vstd::prelude::*;

verus! {

/// Why an operation on a rope was refused.
#[derive(Debug, Clone, Copy, PartialEq, Eq, Structural)]
pub enum RopeError {
    /// A position lies beyond the end of the text.
    IndexOutOfRange,
    /// A range starts after its own end.
    InvalidRange,
}

} // verus!
