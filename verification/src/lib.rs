//! A line-oriented interpreter for a small assembly-style instruction set:
//! sixteen signed 32-bit registers, a flat word memory of 1024 cells, a single
//! carry flag, and a label table. Lines are normalized (comments, blank lines,
//! labels), decoded into typed instructions, and executed against the machine
//! state; a run loop drives a whole script under an interactive or batch
//! error-reporting policy.

pub mod bits32;
pub mod exec;
pub mod instr;
pub mod laws;
pub mod machine;
pub mod parse;
pub mod run;
pub mod scan;

use vstd::prelude::*;

verus! {

/// Command-line options of the surrounding front end: an optional input file
/// to execute in batch mode; without one the interpreter runs interactively.
pub struct Cli {
    pub input_file: Option<String>,
}

} // verus!
