//! Compiles the path data of a line drawing into the three-byte records
//! that a simple plotting device consumes.
//!
//! A drawing comes as a viewbox, which gives the document its width and
//! height, and as a list of paths in the path mini-language: the commands
//! `M m L l H h V v Z z` and their operands. Every coordinate is scaled
//! from document space to the device's eight bits, and every path becomes
//! a list of moves and lines. One instruction after the last path ends
//! the stream.
//!
//! * [`args`] is what a run is told on the command line;
//! * [`ascii`] names the bytes of the grammars;
//! * [`decimal`] reads numerals into fixed-point numbers;
//! * [`quantize`] scales a coordinate to the device;
//! * [`tokens`] cuts text into tokens;
//! * [`viewbox`] reads the width and height of a document;
//! * [`path`] compiles one path;
//! * [`document`] compiles all paths of a document;
//! * [`markup`] finds viewbox and paths in the text of a document;
//! * [`instruction`] holds the instructions and their wire form;
//! * [`error`] lists the faults that stop a compilation.

pub mod args;
pub mod ascii;
pub mod decimal;
pub mod document;
pub mod error;
pub mod instruction;
pub mod markup;
pub mod path;
pub mod quantize;
pub mod tokens;
pub mod viewbox;
