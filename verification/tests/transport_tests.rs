//! Transport tests: the length framing and the KRB-ERROR discrimination
//! of a framed reply.

use kerlab::asn1::{to_der, GeneralString, Tag};
use kerlab::base::{PrincipalName, PrincipalNameType};
use kerlab::der::GeneralizedTime;
use kerlab::error::KerlabErrorKind;
use kerlab::krbkdcrep::{AsRep, KdcRep};
use kerlab::krberror::{KrbError, KrbErrorBody};
use kerlab::request::{frame_length, frame_request, KrbResponse, TcpRequest};

fn sample_principal(label: &str) -> PrincipalName {
    PrincipalName::new(
        PrincipalNameType::NtPrincipal,
        vec![GeneralString::from_ascii(label).unwrap()],
    )
}

fn sample_krb_error() -> KrbError {
    let mut body = KrbErrorBody::default();
    body.pvno.inner = 5;
    body.msg_type.inner = 30;
    body.stime.inner = GeneralizedTime::new(2024, 6, 1, 12, 0, 0);
    body.susec.inner = 0;
    body.error_code.inner = 24;
    body.realm.inner = GeneralString::from_ascii("CONTOSO.COM").unwrap();
    body.sname = Tag::new(sample_principal("krbtgt"));
    KrbError { inner: body }
}

fn sample_as_rep() -> AsRep {
    let mut rep = KdcRep::default();
    rep.pvno.inner = 5;
    rep.msg_type.inner = 11;
    rep.crealm.inner = GeneralString::from_ascii("CONTOSO.COM").unwrap();
    rep.cname = Tag::new(sample_principal("alice"));
    rep.ticket.inner.inner.realm.inner = GeneralString::from_ascii("CONTOSO.COM").unwrap();
    rep.ticket.inner.inner.sname = Tag::new(sample_principal("krbtgt"));
    AsRep { inner: rep }
}

/// A framed reply whose first payload byte is `0x7e` comes back as the
/// KRB-ERROR variant, one starting `0x6b` as the reply variant.
#[test]
fn krb_error_discrimination() {
    let error_payload = to_der(&sample_krb_error());
    assert_eq!(error_payload[0], 0x7e);
    let framed = frame_request(&error_payload).unwrap();
    let announced = frame_length(&framed).unwrap() as usize;
    let body = &framed[4..4 + announced];
    match TcpRequest::decode_response::<AsRep>(body).unwrap() {
        KrbResponse::Error(err) => {
            assert_eq!(err.inner.error_code.inner, 24);
        },
        KrbResponse::Response(_) => panic!("a KRB-ERROR payload must take the error variant"),
    }

    let reply_payload = to_der(&sample_as_rep());
    assert_eq!(reply_payload[0], 0x6b);
    match TcpRequest::decode_response::<AsRep>(&reply_payload).unwrap() {
        KrbResponse::Error(_) => panic!("an AS-REP payload must take the reply variant"),
        KrbResponse::Response(rep) => {
            assert_eq!(rep.inner.msg_type.inner, 11);
        },
    }
}

/// The frame is the big-endian length followed by the payload, and the
/// header reader recovers the length.
#[test]
fn frame_round_trip() {
    let framed = frame_request(&[9, 8, 7]).unwrap();
    assert_eq!(framed, [0, 0, 0, 3, 9, 8, 7]);
    assert_eq!(frame_length(&framed).unwrap(), 3);
    let err = frame_length(&[0, 0]).unwrap_err();
    assert_eq!(err.kind(), KerlabErrorKind::Parsing);
}

/// Garbage that is neither a KRB-ERROR nor the expected reply is a
/// `Parsing` error.
#[test]
fn undecodable_reply_is_an_error() {
    let err = TcpRequest::decode_response::<AsRep>(&[1, 2, 3]).unwrap_err();
    assert_eq!(err.kind(), KerlabErrorKind::Parsing);
}
