//! The error taxonomy of the relay.
//!
//! Per-line and per-chunk conditions (`InvalidEventTag`, `InvalidChunkBytes`)
//! are recoverable: the caller drops the offending line or chunk and keeps
//! decoding. `StorePoisonedError` is fatal for the store instance that
//! reports it. The remaining variants are produced while a surrounding
//! program assembles the upstream request.

use vstd::prelude::*;

verus! {

#[derive(Clone, Copy, Debug, PartialEq, Eq, Structural)]
pub enum MasqueError {
    /// A byte chunk from the transport is not valid UTF-8 text.
    InvalidChunkBytes,
    /// The token before `:` on a wire-format line is not a recognized
    /// field name; the line is ignored and decoding continues.
    InvalidEventTag,
    /// A header value assembled for the upstream request is malformed.
    InvalidHeaderValue,
    /// The upstream URL assembled from the configuration does not parse.
    InvalidUri,
    /// The lock guarding a shared store was abandoned mid-write.
    StorePoisonedError,
}

} // verus!
