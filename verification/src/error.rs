//! Why a file yields no dependency list, and why a single entry yields no name.

use vstd::prelude::*;

verus! {

/// Why no dependency list could be read from a buffer.
#[derive(Clone, Copy, Debug, PartialEq, Eq, Structural)]
pub enum HandleError {
    /// The leading bytes are not those of an ELF object.
    NotObjectFormat,
    /// The header, or the section it leads to, claims bytes that the buffer
    /// does not hold, or names no known byte order.
    MalformedHeader,
    /// The object is well formed and has no dynamic section: it is linked
    /// statically and needs no library.
    NoDynamicSection,
}

/// Why a single string-table lookup gave no name.
#[derive(Clone, Copy, Debug, PartialEq, Eq, Structural)]
pub enum LookupError {
    /// The position lies at or past the end of the table, or no terminator
    /// follows it inside the table.
    OutOfRange,
}

} // verus!
