//! The single error kind union that every fallible operation of the toolkit
//! surfaces, together with a message string naming the context.

use vstd::prelude::*;

verus! {

/// The kind of a toolkit error.
#[derive(Clone, Copy, Debug, PartialEq, Eq, Structural)]
pub enum KerlabErrorKind {
    /// A problem nothing else describes.
    Unknown,
    /// A Kerberos protocol-level problem (for instance a checksum mismatch).
    Kerberos,
    /// An unsupported algorithm or a key that does not match a blob.
    Crypto,
    /// Malformed bytes, an unexpected tag, bad ASCII or a bad time format.
    Parsing,
    /// A constant out of its documented range.
    InvalidConst,
    /// A socket read or write failed (reported by the caller's I/O layer).
    Io,
}

/// An error of the toolkit: a kind plus a human-readable message.
#[derive(Clone, Debug)]
pub struct KerlabError {
    kind: KerlabErrorKind,
    message: String,
}

impl KerlabError {
    /// What kind of error this value reports, as seen by contracts.
    pub closed spec fn spec_kind(&self) -> KerlabErrorKind {
        self.kind
    }

    /// Build an error from its kind and context message.
    pub fn new(kind: KerlabErrorKind, message: &str) -> (r: Self)
        ensures
            r.spec_kind() == kind,
    {
        KerlabError { kind, message: message.to_owned() }
    }

    /// The kind of this error.
    pub fn kind(&self) -> (r: KerlabErrorKind)
        ensures
            r == self.spec_kind(),
    {
        self.kind
    }

    /// The message this error carries.
    pub fn message(&self) -> &str {
        self.message.as_str()
    }
}

/// The result type every fallible operation of the toolkit returns.
pub type KerlabResult<T> = Result<T, KerlabError>;

} // verus!
