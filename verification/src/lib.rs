//! A Kerberos v5 client toolkit: ASN.1 DER/BER codec, the RFC 1510 / RFC 4120
//! message layer, the RC4-HMAC cryptographic envelope (RFC 4757), the MS-PAC
//! binary parser, and the framing/discrimination logic of the KDC transport.
//!
//! Encoders emit DER; readers accept BER with definite lengths. Network and
//! file I/O live outside this crate: callers hand byte buffers in and out.

pub mod asn1;
pub mod authenticator;
pub mod base;
pub mod clock;
pub mod checksum;
pub mod display;
pub mod encryption;
pub mod krbap;
pub mod krbcred;
pub mod krberror;
pub mod krbkdcrep;
pub mod krbkdcreq;
pub mod message;
pub mod ndr;
pub mod ntlm;
pub mod pac;
pub mod padata;
pub mod rc4hmac;
pub mod request;
pub mod rnd;
pub mod ticket;
pub mod der;
pub mod error;

pub use error::{KerlabError, KerlabErrorKind, KerlabResult};
