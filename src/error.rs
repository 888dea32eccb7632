use vstd::prelude::*;

verus! {

/// The ways in which parsing a request or resolving a response can fail.
#[derive(Clone, Copy, Debug, PartialEq, Eq, Structural)]
pub enum Error {
    /// A request line is not valid UTF-8, is not CRLF-terminated, or a
    /// key-value line lacks its delimiter.
    ParsingError,
    /// The bytes ended before the blank line that closes the request head.
    IncompleteRequest,
    /// A header that the matched route requires is missing.
    ConfigRequiredHeadersError,
    /// A query parameter that the matched route requires is missing.
    ConfigRequiredQueriesError,
    /// The file that the matched route serves is not a regular file.
    ConfigFileOpenError,
    /// A response header declared by the matched route lacks its `:`.
    ConfigParsingError,
}

} // verus!
