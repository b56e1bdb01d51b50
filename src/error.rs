//! The ways a request can be refused.
use vstd::prelude::*;

verus! {

#[derive(Debug, Clone, Copy, PartialEq, Eq, Structural)]
pub enum FillitError {
    /// A piece is not four lines of four '#' or '.' with exactly four '#'.
    InvalidShape,
    /// The number of pieces is not between 1 and 26.
    InvalidPieceCount,
}

} // verus!
