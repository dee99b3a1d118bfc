//! Message-builder tests: the AS-REQ shape and round trip, the KDC option
//! mask, pre-authentication entries, and the formatter.

use kerlab::asn1::{from_der, to_der};
use kerlab::base::PrincipalNameType;
use kerlab::display::Formatter;
use kerlab::encryption::EncryptionKey;
use kerlab::krbkdcreq::{AsReq, KdcOptionsType};
use kerlab::padata::PaDataType;

/// The packed option word is the bitwise-or of the option masks:
/// Renewable occupies big-endian bit 8 and RenewableOk bit 27.
#[test]
fn kdc_option_mask() {
    let joined = KdcOptionsType::join(&[KdcOptionsType::Renewable, KdcOptionsType::RenewableOk]);
    assert_eq!(joined, 0x0080_0010);
    assert_eq!(KdcOptionsType::join(&[]), 0);
    assert_eq!(
        KdcOptionsType::join(&[KdcOptionsType::Forwardable]),
        0x4000_0000
    );
}

/// Building an AS-REQ for CONTOSO.COM/alice, re-encoding and decoding it
/// yields identical fields, with an sname of `krbtgt/CONTOSO.COM` of type
/// SRV-INST.
#[test]
fn as_req_build_round_trip() {
    let request = AsReq::new(
        "CONTOSO.COM",
        "alice",
        &[KdcOptionsType::Renewable, KdcOptionsType::RenewableOk],
    )
    .unwrap();
    let bytes = to_der(&request);
    assert_eq!(bytes[0], 0x60 | 10);
    let reread: AsReq = from_der(&bytes).unwrap();
    assert_eq!(reread, request);

    let body = &reread.inner.req_body.inner;
    assert_eq!(reread.inner.pvno.inner, 5);
    assert_eq!(reread.inner.msg_type.inner, 10);
    assert!(reread.inner.padata.is_none());
    assert_eq!(body.realm.inner.as_bytes(), b"CONTOSO.COM");
    let cname = body.cname.as_ref().unwrap();
    assert_eq!(
        cname.inner.name_type.inner,
        PrincipalNameType::NtPrincipal.value()
    );
    assert_eq!(cname.inner.name_string.inner.len(), 1);
    assert_eq!(cname.inner.name_string.inner[0].as_bytes(), b"alice");
    let sname = body.sname.as_ref().unwrap();
    assert_eq!(
        sname.inner.name_type.inner,
        PrincipalNameType::NtSrvInst.value()
    );
    assert_eq!(sname.inner.name_string.inner.len(), 2);
    assert_eq!(sname.inner.name_string.inner[0].as_bytes(), b"krbtgt");
    assert_eq!(sname.inner.name_string.inner[1].as_bytes(), b"CONTOSO.COM");
    assert_eq!(body.kdc_options.inner.data, [0x00, 0x80, 0x00, 0x10]);
    assert_eq!(body.etype.inner, vec![23]);
    assert!(body.from.is_none() && body.rtime.is_none());
    assert!(body.addresses.is_none() && body.additional_tickets.is_none());
}

/// A non-ASCII user name cannot become an AS-REQ.
#[test]
fn as_req_rejects_non_ascii() {
    let err = AsReq::new("CONTOSO.COM", "al\u{ef}ce", &[]).unwrap_err();
    assert_eq!(err.kind(), kerlab::error::KerlabErrorKind::Parsing);
}

/// Pre-authentication appends one encrypted-timestamp entry.
#[test]
fn with_preauth_appends_timestamp_entry() {
    let request = AsReq::new("CONTOSO.COM", "alice", &[]).unwrap();
    let key = EncryptionKey::new_rc4_hmac("Summer2018!").unwrap();
    let with = request.with_preauth(&key).unwrap();
    let entries = &with.inner.padata.as_ref().unwrap().inner;
    assert_eq!(entries.len(), 1);
    assert_eq!(
        entries[0].padata_type.inner,
        PaDataType::PaEncTimestamp.value()
    );
    // The sealed timestamp carries the RC4-HMAC checksum and confounder.
    assert!(entries[0].padata_value.inner.data.len() > 24);
}

/// The formatter indents fresh lines and only those.
#[test]
fn formatter_layout() {
    let mut f = Formatter::new();
    f.println("KDC-REQ ::=");
    f.indent();
    f.print("pvno: ");
    f.println("5");
    f.dedent();
    f.println("done");
    assert_eq!(f.output(), "KDC-REQ ::=\n\tpvno: 5\ndone\n");
}
