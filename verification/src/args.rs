//! What a run is told on the command line.

use std::path::PathBuf;
use vstd::prelude::*;

verus! {

#[verifier::external_type_specification]
#[verifier::external_body]
pub struct ExPathBuf(PathBuf);

/// The file to draw, and the speed of the line to the plotter.
#[derive(Debug)]
pub struct Args {
    /// The document that holds the drawing.
    pub filename: PathBuf,
    /// Baud rate of the serial line, where the default is not wanted.
    pub baud_rate: Option<u32>,
}

} // verus!
