//! Why an analysis could not be completed.
use vstd::prelude::*;

verus! {

/// The ways in which decoding a binary fails.
#[derive(Debug, Clone, Copy, PartialEq, Eq, Structural)]
pub enum AnalysisError {
    /// A read would pass the end of the buffer.
    Truncated,
    /// A string in the binary is not UTF-8.
    InvalidUtf8,
    /// Base classes nest deeper than the decoder follows.
    TooDeep,
    /// The container does not parse, or lacks a section that is needed.
    MissingSection,
    /// A symbol, section or string-table entry is absent.
    NotFound,
    /// A symbol name could not be demangled.
    Demangle,
}

} // verus!
