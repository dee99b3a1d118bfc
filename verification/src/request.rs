//! The computational half of the KDC transport: the 4-byte big-endian
//! length framing both TCP and UDP exchanges use, and the discrimination of
//! a reply into KRB-ERROR or the expected message. The sockets themselves
//! live with the caller, which hands byte buffers in and out.

use vstd::prelude::*;

verus! {

use crate::asn1::{from_ber, spec_from_bytes, Asn1Data};
use crate::error::{KerlabError, KerlabErrorKind, KerlabResult};
use crate::krberror::KrbError;

/// What a KDC answered: the expected reply, or a KRB-ERROR.
#[derive(Debug)]
pub enum KrbResponse<T> {
    Error(KrbError),
    Response(T),
}

/// The frame around a request: the payload length as four big-endian
/// octets, then the payload.
pub open spec fn spec_frame(payload: Seq<u8>) -> Seq<u8> {
    crate::krbkdcreq::be32(payload.len() as u32) + payload
}

/// Wrap a DER-encoded request in its length frame. A payload too long for
/// the 32-bit length field is rejected with a `Kerberos` error.
pub fn frame_request(payload: &[u8]) -> (r: KerlabResult<Vec<u8>>)
    ensures
        match r {
            Ok(f) => payload@.len() <= u32::MAX && f@ == spec_frame(payload@),
            Err(e) => payload@.len() > u32::MAX && e.spec_kind() == KerlabErrorKind::Kerberos,
        },
{
    if payload.len() > u32::MAX as usize {
        return Err(KerlabError::new(KerlabErrorKind::Kerberos, "request too long to frame"));
    }
    let mut out = crate::krbkdcreq::be32_to_bytes(payload.len() as u32);
    out.extend_from_slice(payload);
    assert(out@ =~= spec_frame(payload@));
    Ok(out)
}

/// The length announced by a big-endian 4-byte frame header.
pub open spec fn spec_frame_length(header: Seq<u8>) -> u32 {
    (header[0] * 0x100_0000 + header[1] * 0x1_0000 + header[2] * 0x100 + header[3]) as u32
}

/// Read the length out of the 4-byte frame header.
pub fn frame_length(header: &[u8]) -> (r: KerlabResult<u32>)
    ensures
        match r {
            Ok(n) => header@.len() >= 4 && n == spec_frame_length(header@),
            Err(e) => header@.len() < 4 && e.spec_kind() == KerlabErrorKind::Parsing,
        },
{
    if header.len() < 4 {
        return Err(KerlabError::new(KerlabErrorKind::Parsing, "frame header too short"));
    }
    let b0 = *vstd::slice::slice_index_get(header, 0);
    let b1 = *vstd::slice::slice_index_get(header, 1);
    let b2 = *vstd::slice::slice_index_get(header, 2);
    let b3 = *vstd::slice::slice_index_get(header, 3);
    Ok(b0 as u32 * 0x100_0000 + b1 as u32 * 0x1_0000 + b2 as u32 * 0x100 + b3 as u32)
}

/// Discriminate a KDC reply: a payload that reads as a KRB-ERROR is the
/// `Error` variant; otherwise it must read as the expected message `T`.
/// This is the one place where a failed decode is a signal, not a fault.
pub fn decode_response<T: Asn1Data>(payload: &[u8]) -> (r: KerlabResult<KrbResponse<T>>)
    ensures
        match r {
            Ok(resp) => match resp {
                KrbResponse::Error(err) => spec_from_bytes::<KrbError>(payload@) == Some(
                    err.deep_view(),
                ),
                KrbResponse::Response(t) => spec_from_bytes::<KrbError>(payload@) is None
                    && spec_from_bytes::<T>(payload@) == Some(t.deep_view()) && T::view_wf(
                    t.deep_view(),
                ),
            },
            Err(e) => spec_from_bytes::<KrbError>(payload@) is None && spec_from_bytes::<T>(
                payload@,
            ) is None && e.spec_kind() == KerlabErrorKind::Parsing,
        },
{
    match from_ber::<KrbError>(payload) {
        Ok(err) => Ok(KrbResponse::Error(err)),
        Err(_) => {
            match from_ber::<T>(payload) {
                Ok(t) => Ok(KrbResponse::Response(t)),
                Err(e) => Err(e),
            }
        },
    }
}

/// The TCP exchange: its framing and reply discrimination. The caller
/// connects, writes `frame_request` of the DER, reads the 4-byte length
/// and then the body, and hands the body to `decode_response`.
pub struct TcpRequest;

impl TcpRequest {
    /// Discriminate the framed body a TCP exchange read back.
    pub fn decode_response<T: Asn1Data>(payload: &[u8]) -> (r: KerlabResult<KrbResponse<T>>)
        ensures
            match r {
                Ok(resp) => match resp {
                    KrbResponse::Error(err) => spec_from_bytes::<KrbError>(payload@) == Some(
                        err.deep_view(),
                    ),
                    KrbResponse::Response(t) => spec_from_bytes::<KrbError>(payload@) is None
                        && spec_from_bytes::<T>(payload@) == Some(t.deep_view()) && T::view_wf(
                        t.deep_view(),
                    ),
                },
                Err(e) => spec_from_bytes::<KrbError>(payload@) is None && spec_from_bytes::<T>(
                    payload@,
                ) is None && e.spec_kind() == KerlabErrorKind::Parsing,
            },
    {
        decode_response(payload)
    }
}

/// The UDP exchange: one framed datagram out, one framed datagram back,
/// discriminated like the TCP body.
pub struct UdpRequest;

impl UdpRequest {
    /// Discriminate the framed datagram a UDP exchange read back.
    pub fn decode_response<T: Asn1Data>(payload: &[u8]) -> (r: KerlabResult<KrbResponse<T>>)
        ensures
            match r {
                Ok(resp) => match resp {
                    KrbResponse::Error(err) => spec_from_bytes::<KrbError>(payload@) == Some(
                        err.deep_view(),
                    ),
                    KrbResponse::Response(t) => spec_from_bytes::<KrbError>(payload@) is None
                        && spec_from_bytes::<T>(payload@) == Some(t.deep_view()) && T::view_wf(
                        t.deep_view(),
                    ),
                },
                Err(e) => spec_from_bytes::<KrbError>(payload@) is None && spec_from_bytes::<T>(
                    payload@,
                ) is None && e.spec_kind() == KerlabErrorKind::Parsing,
            },
    {
        decode_response(payload)
    }
}

} // verus!
