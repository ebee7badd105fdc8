//! A verified codec for the `multipart/form-data` wire format: an eager
//! encoder, a lazy builder with a prepared stream of known total length, and
//! a streaming boundary-framing decoder.
use vstd::prelude::*;

pub mod scan;
pub mod wire;
pub mod boundary;
pub mod gen;
pub mod encode;
pub mod lazy;
pub mod decode;
pub mod roundtrip;

verus! {

/// Everything that can go wrong in an encode or decode session.
#[derive(Clone, Copy, Debug, PartialEq, Eq, Structural)]
pub enum MultipartError {
    /// An operation was called after the session passed the point where it is
    /// legal (adding a field after sending, reading after a fatal error).
    InvalidState,
    /// The body or its boundary token is not multipart material at all.
    NotMultipart,
    /// A part's header block is missing the required name or is not
    /// well-formed.
    MalformedHeader,
    /// The declared content length does not match the actual source size.
    LengthMismatch,
}

} // verus!
