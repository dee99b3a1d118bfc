//! PAC tests: the client-info buffer dug out of authorization data, the
//! signature buffer, FILETIME conversion, and the error cases.

use kerlab::asn1::{from_ber, to_der, OctetString, Tag};
use kerlab::base::{AuthorizationData, AuthorizationDataElement};
use kerlab::error::KerlabErrorKind;
use kerlab::ndr::FileTime;
use kerlab::pac::{PacSignatureData, PacStruct, PacType};
use kerlab::ticket::AdDataType;

fn utf16le(text: &str) -> Vec<u8> {
    let mut out = Vec::new();
    for unit in text.encode_utf16() {
        out.push((unit & 0xff) as u8);
        out.push((unit >> 8) as u8);
    }
    out
}

/// A minimal PACTYPE blob holding one PAC_CLIENT_INFO buffer for `name`.
fn client_info_blob(name: &str) -> Vec<u8> {
    let name_bytes = utf16le(name);
    let mut buffer = Vec::new();
    // FILETIME client id, then the name length, then the UTF-16LE name.
    buffer.extend_from_slice(&0x01d3_0000u32.to_le_bytes());
    buffer.extend_from_slice(&0x01d3_4567u32.to_le_bytes());
    buffer.extend_from_slice(&(name_bytes.len() as u16).to_le_bytes());
    buffer.extend_from_slice(&name_bytes);

    let mut blob = Vec::new();
    blob.extend_from_slice(&1u32.to_le_bytes()); // cBuffers
    blob.extend_from_slice(&0u32.to_le_bytes()); // version
    blob.extend_from_slice(&10u32.to_le_bytes()); // ulType: client info
    blob.extend_from_slice(&(buffer.len() as u32).to_le_bytes());
    blob.extend_from_slice(&24u64.to_le_bytes()); // offset past the header
    blob.extend_from_slice(&buffer);
    blob
}

/// Locating the PacClientInfo buffer behind AD-IF-RELEVANT and
/// AD-WIN2K-PAC and reading the UTF-16LE client name back.
#[test]
fn pac_client_name_from_authorization_data() {
    let blob = client_info_blob("alice");

    // The PAC blob sits in an AD-WIN2K-PAC element inside an
    // AD-IF-RELEVANT wrapper, as it does inside a ticket.
    let inner: AuthorizationData = vec![AuthorizationDataElement {
        ad_type: Tag::new(AdDataType::AdWin2kPac.value()),
        ad_data: Tag::new(OctetString::from_vec(blob)),
    }];
    let wrapper: AuthorizationData = vec![AuthorizationDataElement {
        ad_type: Tag::new(AdDataType::AdIfRelevant.value()),
        ad_data: Tag::new(OctetString::from_vec(to_der(&inner))),
    }];
    let wire = to_der(&wrapper);

    let outer: AuthorizationData = from_ber(&wire).unwrap();
    assert_eq!(outer[0].ad_type.inner, 1);
    let relevant: AuthorizationData = from_ber(&outer[0].ad_data.inner.data).unwrap();
    assert_eq!(relevant[0].ad_type.inner, 128);

    let pac = PacType::from_addata(&relevant[0].ad_data.inner.data).unwrap();
    assert_eq!(pac.c_buffers, 1);
    assert_eq!(pac.buffers.len(), 1);
    match &pac.buffers[0] {
        PacStruct::PacClientInfo(info) => {
            assert_eq!(info.name, "alice");
            assert_eq!(info.name_length, 10);
        },
        _ => panic!("expected a PacClientInfo buffer"),
    }
}

/// A signature buffer: the 16-byte HMAC-MD5 signature, with and without
/// the trailing RODC identifier; an unknown type is refused.
#[test]
fn pac_signature_parsing() {
    let mut buf = Vec::new();
    buf.extend_from_slice(&0xffff_ff76u32.to_le_bytes());
    buf.extend_from_slice(&[7u8; 16]);
    let sig = PacSignatureData::from(&buf).unwrap();
    assert_eq!(sig.signature_type, 0xffff_ff76);
    assert_eq!(sig.signature, vec![7u8; 16]);
    assert!(sig.rodcidentifier.is_none());

    buf.extend_from_slice(&0x0102u16.to_le_bytes());
    let sig = PacSignatureData::from(&buf).unwrap();
    assert_eq!(sig.rodcidentifier, Some(0x0102));

    let mut unknown = Vec::new();
    unknown.extend_from_slice(&0x1234u32.to_le_bytes());
    let err = PacSignatureData::from(&unknown).unwrap_err();
    assert_eq!(err.kind(), KerlabErrorKind::Unknown);
}

/// A descriptor pointing past the blob is a parsing error.
#[test]
fn pac_descriptor_out_of_range() {
    let mut blob = Vec::new();
    blob.extend_from_slice(&1u32.to_le_bytes());
    blob.extend_from_slice(&0u32.to_le_bytes());
    blob.extend_from_slice(&10u32.to_le_bytes());
    blob.extend_from_slice(&100u32.to_le_bytes()); // size past the end
    blob.extend_from_slice(&24u64.to_le_bytes());
    let err = PacType::from_addata(&blob).unwrap_err();
    assert_eq!(err.kind(), KerlabErrorKind::Parsing);
}

/// FILETIME conversion: the marker values collapse to the epoch, and a
/// known instant lands on the right Unix second.
#[test]
fn filetime_conversion() {
    let never = FileTime {
        dw_low_date_time: 0xffff_ffff,
        dw_high_date_time: 0x7fff_ffff,
    };
    assert_eq!(never.datetime(), 0);
    let forever = FileTime {
        dw_low_date_time: 5,
        dw_high_date_time: 0xffff_ffff,
    };
    assert_eq!(forever.datetime(), 0);
    let unset = FileTime {
        dw_low_date_time: 0,
        dw_high_date_time: 0x01d3_0000,
    };
    assert_eq!(unset.datetime(), 0);

    // 2020-01-01T00:00:00Z as a FILETIME: 132223104000000000 ticks.
    let ticks: u64 = 132_223_104_000_000_000;
    let t = FileTime {
        dw_low_date_time: (ticks & 0xffff_ffff) as u32,
        dw_high_date_time: (ticks >> 32) as u32,
    };
    assert_eq!(t.datetime(), 1_577_836_800);
}

/// A client name holding a lone surrogate is not well-formed UTF-16 and
/// fails with a `Parsing` error.
#[test]
fn pac_client_name_rejects_lone_surrogate() {
    let mut buffer = Vec::new();
    buffer.extend_from_slice(&0x01d3_0000u32.to_le_bytes());
    buffer.extend_from_slice(&0x01d3_4567u32.to_le_bytes());
    buffer.extend_from_slice(&2u16.to_le_bytes());
    buffer.extend_from_slice(&0xd800u16.to_le_bytes()); // high surrogate alone
    let err = kerlab::pac::PacClientInfo::from(&buffer).unwrap_err();
    assert_eq!(err.kind(), KerlabErrorKind::Parsing);
}

