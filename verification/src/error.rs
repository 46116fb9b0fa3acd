//! Error taxonomy of the decryption engine and of URI handling.

use vstd::prelude::*;

verus! {

/// Errors surfaced by the decrypting stream, the validator and the chunked
/// streamer.
#[derive(Clone, Copy, Debug, PartialEq, Eq, Structural)]
pub enum StreamError {
    /// The source ended before the requested bytes were available.
    UnexpectedEof,
    /// A seek target (or relative offset) was unaligned or out of range.
    InvalidInput,
    /// Malformed ciphertext: an aligned read could not be served whole, or
    /// PKCS#7 unpadding failed on the final block.
    InvalidData,
}

/// Errors which can occur when serving crypt files.
#[derive(Clone, Copy, Debug, PartialEq, Eq, Structural)]
pub enum CryptFilesError {
    /// The requested path is a directory with no index configured.
    IsDirectory,
}

/// Errors of a single path segment of a request URI.
#[derive(Clone, Copy, Debug, PartialEq, Eq, Structural)]
pub enum UriSegmentError {
    /// The segment started with the wrapped invalid character.
    BadStart(char),
    /// The segment contained the wrapped invalid character.
    BadChar(char),
    /// The segment ended with the wrapped invalid character.
    BadEnd(char),
}

} // verus!
