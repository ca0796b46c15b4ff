use vstd::prelude::*;

verus! {

/// Why looking an executable up on the system path failed: its path was not
/// text, or the lookup itself could not run.  Each variant carries the
/// underlying message.
#[derive(Debug, Clone, PartialEq, Eq)]
pub enum FindExecError {
    OutputParse(String),
    IO(String),
}

} // verus!
