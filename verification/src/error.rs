//! Why a compilation stops.

use vstd::prelude::*;

verus! {

/// The first fault met; nothing is compiled past it.
#[derive(Clone, Copy, Debug, PartialEq, Eq, Structural)]
pub enum CompileError {
    /// The document is not well-formed markup.
    MalformedDocument,
    /// The viewbox does not start with four numerals.
    MalformedViewbox,
    /// A coordinate was to be scaled by a dimension of zero.
    InvalidViewbox,
    /// A command needs a point that no earlier command has given.
    MissingStartPoint,
    /// An operand is not the numeral or pair of numerals that its command takes.
    UnparseableCoordinate,
}

} // verus!
