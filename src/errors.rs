use vstd::prelude::*;
use vstd::string::StringExecFns;

verus! {

/// The single failure kind of the line grammar: the input is not an entry.
#[derive(Debug, Clone, Copy, PartialEq, Eq, Structural)]
pub struct CedictEntryError;

impl CedictEntryError {
    /// Human-readable description of the error.
    pub fn message(&self) -> (r: String)
        ensures
            r@ == "invalid cedict entry input"@,
    {
        String::from_str("invalid cedict entry input")
    }
}

/// Failure to read a whole dictionary.
#[derive(Debug, Clone, Copy, PartialEq, Eq, Structural)]
pub struct CedictError;

impl CedictError {
    /// Human-readable description of the error.
    pub fn message(&self) -> (r: String)
        ensures
            r@ == "invalid cedict input"@,
    {
        String::from_str("invalid cedict input")
    }
}

} // verus!
