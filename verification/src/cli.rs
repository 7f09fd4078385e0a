//! The options of the command line, as plain values.

use vstd::prelude::*;

verus! {

/// What the command line asks for.
#[derive(Debug, Clone, PartialEq, Eq)]
pub struct Cli {
    /// The path of the schema source.
    pub input_file: String,
    /// Whether to emit the placeholder JSON document.
    pub json: bool,
    /// Whether to write the document to a file beside the source instead
    /// of printing it.
    pub pwd: bool,
}

} // verus!
