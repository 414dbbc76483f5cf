//! The command line of the assembler, as plain data.
use vstd::prelude::*;

verus! {

/// The command line: one subcommand.
pub struct Cli {
    pub command: Commands,
}

/// The subcommands.
pub enum Commands {
    Assemble(AssembleArgs),
}

/// Arguments of `assemble`: the source file, where to write, and whether to write a
/// hexadecimal listing instead of raw bytes.
pub struct AssembleArgs {
    pub source: String,
    pub output: Option<String>,
    pub coe: bool,
}

/// The output path when none is given: `out.coe` for a listing, `out.bin` otherwise.
pub open spec fn default_output(coe: bool) -> Seq<char> {
    if coe {
        "out.coe"@
    } else {
        "out.bin"@
    }
}

impl AssembleArgs {
    /// Where the output goes: the given path, or the default for the format.
    pub fn output_path(&self) -> (r: String)
        ensures
            r@ == match self.output {
                Some(o) => o@,
                None => default_output(self.coe),
            },
    {
        match &self.output {
            Some(o) => o.clone(),
            None => if self.coe {
                String::from_str("out.coe")
            } else {
                String::from_str("out.bin")
            },
        }
    }
}

} // verus!
