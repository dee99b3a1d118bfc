//! Codec-level tests: optional-field reading, the PrincipalName encoding,
//! DER round trips, tag layout, and parse errors.

use kerlab::asn1::{from_ber, from_der, to_der, GeneralString, OctetString, Tag};
use kerlab::base::PrincipalName;
use kerlab::der::{parse_value, Asn1Value, GeneralizedTime};
use kerlab::encryption::EncryptedData;
use kerlab::error::KerlabErrorKind;
use kerlab::krberror::KrbErrorBody;
use kerlab::padata::PaEncTsEnc;

fn context_child(tree: &Asn1Value, wanted: u8) -> Option<&Asn1Value> {
    if let Asn1Value::Sequence(children) = tree {
        for child in children {
            if let Asn1Value::ContextTag(n, inner) = child {
                if *n == wanted {
                    return Some(inner);
                }
            }
        }
    }
    None
}

/// Reading a three-field sequence `[0]Int, [1]Int?, [2]Int` whose bytes
/// omit the optional `[1]` leaves that slot empty; with the field present
/// its value comes through.
#[test]
fn test_optional_field() {
    let without = [48, 10, 160, 3, 2, 1, 1, 162, 3, 2, 1, 3];
    let (tree, used) = parse_value(&without, 0, without.len()).unwrap();
    assert_eq!(used, without.len());
    assert!(matches!(
        context_child(&tree, 0),
        Some(Asn1Value::Integer(1))
    ));
    assert!(context_child(&tree, 1).is_none());
    assert!(matches!(
        context_child(&tree, 2),
        Some(Asn1Value::Integer(3))
    ));

    let with = [48, 15, 160, 3, 2, 1, 1, 161, 3, 2, 1, 2, 162, 3, 2, 1, 3];
    let (tree, used) = parse_value(&with, 0, with.len()).unwrap();
    assert_eq!(used, with.len());
    assert!(matches!(
        context_child(&tree, 1),
        Some(Asn1Value::Integer(2))
    ));
}

/// The documented DER of `PrincipalName(name-type=2, labels=["foo"])`.
#[test]
fn test_principal_name() {
    let mut pn = PrincipalName::default();
    pn.name_type.inner = 2;
    pn.name_string
        .inner
        .push(GeneralString::from_ascii("foo").unwrap());
    assert_eq!(
        to_der(&pn),
        [48, 14, 160, 3, 2, 1, 2, 161, 7, 48, 5, 27, 3, 102, 111, 111]
    );
}

/// A struct with its optional field absent reads back from bytes that
/// omit the field; adding the field makes the encoding longer.
#[test]
fn optional_skipping_encrypted_data() {
    let without = EncryptedData::new(23, OctetString::from_vec(vec![1, 2, 3]));
    let bytes = to_der(&without);
    let read: EncryptedData = from_der(&bytes).unwrap();
    assert_eq!(read, without);
    assert!(read.kvno.is_none());

    let mut with = without.clone();
    with.kvno = Some(Tag::new(7));
    let longer = to_der(&with);
    assert!(longer.len() > bytes.len());
    let read_with: EncryptedData = from_der(&longer).unwrap();
    assert_eq!(read_with.kvno.as_ref().map(|t| t.inner), Some(7));
}

/// Times round-trip through their `YYYYMMDDHHMMSSZ` rendering, and a month
/// outside the calendar is rejected.
#[test]
fn generalized_time_round_trip() {
    let mut stamp = PaEncTsEnc::default();
    stamp.patimestamp.inner = GeneralizedTime::new(2024, 12, 31, 23, 59, 58);
    let bytes = to_der(&stamp);
    let read: PaEncTsEnc = from_der(&bytes).unwrap();
    assert_eq!(read, stamp);

    let mut bad = bytes.clone();
    // The month tens digit sits after the sequence, context and time
    // headers plus the four year digits.
    let month_pos = bytes
        .windows(2)
        .position(|w| w == [0x31, 0x32])
        .expect("month 12 in the rendering");
    bad[month_pos] = 0x31 + 8;  // month 92
    let err = from_der::<PaEncTsEnc>(&bad).unwrap_err();
    assert_eq!(err.kind(), KerlabErrorKind::Parsing);
}

/// Tag layout: the first octet of an `[APPLICATION n]` encoding is
/// `0x60 | n`.
#[test]
fn application_tag_layout() {
    let mut body = KrbErrorBody::default();
    body.stime.inner = GeneralizedTime::new(2024, 1, 1, 0, 0, 0);
    let err = kerlab::krberror::KrbError { inner: body };
    let bytes = to_der(&err);
    assert_eq!(bytes[0], 0x60 | 30);

    let ticket = kerlab::ticket::Ticket::default();
    let mut t = ticket;
    t.inner.realm = Tag::new(GeneralString::from_ascii("R").unwrap());
    let bytes = to_der(&t);
    assert_eq!(bytes[0], 0x60 | 1);
}

/// Truncated or alien bytes fail with a `Parsing` error.
#[test]
fn malformed_bytes_are_parsing_errors() {
    let err = from_ber::<EncryptedData>(&[48]).unwrap_err();
    assert_eq!(err.kind(), KerlabErrorKind::Parsing);
    let err = from_ber::<EncryptedData>(&[2, 1, 7]).unwrap_err();
    assert_eq!(err.kind(), KerlabErrorKind::Parsing);
    let err = from_ber::<EncryptedData>(&[]).unwrap_err();
    assert_eq!(err.kind(), KerlabErrorKind::Parsing);
}

/// Text with characters above `0x7f` cannot become a GeneralString.
#[test]
fn non_ascii_text_is_rejected() {
    let err = GeneralString::from_ascii("na\u{ef}ve").unwrap_err();
    assert_eq!(err.kind(), KerlabErrorKind::Parsing);
    assert_eq!(
        GeneralString::from_ascii("plain").unwrap().as_bytes(),
        b"plain"
    );
}
