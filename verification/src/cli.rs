use vstd::prelude::*;

verus! {

/// What the command line asks for.
#[derive(Debug)]
pub struct Cli {
    /// Input source file (.oberon, .Mod, etc.)
    pub input: String,
    /// Output file (optional; defaults to <input>.bin)
    pub output: Option<String>,
    /// Print extra info (useful while scaffolding)
    pub verbose: bool,
}

} // verus!
