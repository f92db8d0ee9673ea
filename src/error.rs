use vstd::prelude::*;

verus! {

/// Errors reported by the configuration and the record writer.
#[derive(Clone, Copy, Debug, PartialEq, Eq, Structural)]
pub enum Error {
    /// A record's field count differs from the count of the first record
    /// of a writer that is not flexible.
    UnequalLengths { expected_len: usize, len: usize },
    /// The quote byte and the delimiter byte are the same.
    QuoteIsDelimiter,
    /// Quotes are to be escaped, not doubled, but no escape byte is set.
    MissingEscape,
}

} // verus!
