//! The run options the surrounding program hands in: where the crate root
//! lies and where the architecture specification document lies.

use vstd::prelude::*;

verus! {

/// Paths chosen on the command line. The surrounding program parses its
/// arguments into this pair; the defaults name a conventional crate layout.
#[derive(Debug)]
pub struct Options {
    /// Path to the crate root file.
    pub input: String,
    /// Path to the specification file of the architecture.
    pub specification: String,
}

impl Options {
    pub fn new(input: String, specification: String) -> (res: Self)
        ensures
            res.input@ == input@,
            res.specification@ == specification@,
    {
        Options { input, specification }
    }
}

impl Default for Options {
    fn default() -> (res: Self)
        ensures
            res.input@ == "src/main.rs"@,
            res.specification@ == "architecture.json"@,
    {
        Options {
            input: String::from_str("src/main.rs"),
            specification: String::from_str("architecture.json"),
        }
    }
}

} // verus!
