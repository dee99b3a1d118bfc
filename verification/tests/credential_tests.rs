//! Credential-container tests: the KRB-CRED cleartext stash and its round
//! trip, the TGS-REQ with its AP-REQ pre-authentication, and the clock.

use kerlab::asn1::{from_ber, from_der, to_der, GeneralString, OctetString, Tag};
use kerlab::authenticator::Authenticator;
use kerlab::base::{PrincipalName, PrincipalNameType};
use kerlab::clock::{now_plus_days, now_utc};
use kerlab::der::GeneralizedTime;
use kerlab::encryption::{EncryptedData, EncryptionKey, KeyUsage};
use kerlab::krbap::ApReq;
use kerlab::krbcred::{EncKrbCredPart, KrbCred};
use kerlab::krbkdcrep::EncKDCRepPart;
use kerlab::krbkdcreq::{KdcOptionsType, TgsReq};
use kerlab::ticket::Ticket;

fn sample_principal(label: &str) -> PrincipalName {
    PrincipalName::new(
        PrincipalNameType::NtPrincipal,
        vec![GeneralString::from_ascii(label).unwrap()],
    )
}

fn sample_ticket() -> Ticket {
    let mut ticket = Ticket::default();
    ticket.inner.tkt_vno.inner = 5;
    ticket.inner.realm = Tag::new(GeneralString::from_ascii("CONTOSO.COM").unwrap());
    ticket.inner.sname = Tag::new(sample_principal("krbtgt"));
    ticket.inner.enc_part = Tag::new(EncryptedData::new(
        23,
        OctetString::from_vec(vec![1, 2, 3, 4]),
    ));
    ticket
}

fn sample_rep_part() -> EncKDCRepPart {
    let mut part = EncKDCRepPart::default();
    part.key = Tag::new(EncryptionKey::new_rc4_hmac("Summer2018!").unwrap());
    part.nonce.inner = 42;
    part.authtime.inner = GeneralizedTime::new(2024, 6, 1, 8, 0, 0);
    part.endtime.inner = GeneralizedTime::new(2024, 6, 2, 8, 0, 0);
    part.srealm = Tag::new(GeneralString::from_ascii("CONTOSO.COM").unwrap());
    part.sname = Tag::new(sample_principal("krbtgt"));
    part
}

/// A KRB-CRED stores the ticket with a cleartext enc-part, and the whole
/// container survives a DER round trip.
#[test]
fn krb_cred_cleartext_stash() {
    let cred = KrbCred::new(
        sample_principal("alice"),
        sample_ticket(),
        sample_rep_part(),
    )
    .unwrap();
    assert_eq!(cred.inner.pvno.inner, 5);
    assert_eq!(cred.inner.msg_ticket.inner, 22);
    assert_eq!(cred.inner.enc_part.inner.etype.inner, 0);

    let bytes = to_der(&cred);
    assert_eq!(bytes[0], 0x60 | 22);
    let reread: KrbCred = from_der(&bytes).unwrap();
    assert_eq!(reread, cred);

    let part: EncKrbCredPart =
        from_ber(&reread.inner.enc_part.inner.cipher.inner.data).unwrap();
    let info = &part.inner.ticket_info.inner[0];
    assert_eq!(
        info.pname.as_ref().unwrap().inner,
        sample_principal("alice")
    );
    assert_eq!(
        info.key.inner.keyvalue.inner.data,
        kerlab::ntlm::ntlm("Summer2018!").unwrap()
    );
    assert_eq!(info.endtime.as_ref().unwrap().inner.day, 2);
}

/// A TGS-REQ carries exactly one PA-TGS-REQ entry holding the DER of the
/// AP-REQ, and round-trips.
#[test]
fn tgs_req_with_ap_req() {
    let session_key = EncryptionKey::new_rc4_hmac_from_hash(vec![7u8; 16]).unwrap();
    let authenticator = Authenticator::new(
        GeneralString::from_ascii("CONTOSO.COM").unwrap(),
        sample_principal("alice"),
    );
    let sealed = session_key
        .encrypt(KeyUsage::KrbKeyUsageTgsReqPaAuthenticator, &authenticator)
        .unwrap();
    let ap_req = ApReq::new(sample_ticket(), sealed);
    assert_eq!(ap_req.inner.pvno.inner, 5);
    assert_eq!(ap_req.inner.msg_type.inner, 14);

    let service = PrincipalName::new(
        PrincipalNameType::NtSrvInst,
        vec![
            GeneralString::from_ascii("cifs").unwrap(),
            GeneralString::from_ascii("files.contoso.com").unwrap(),
        ],
    );
    let request = TgsReq::new(
        "CONTOSO.COM",
        "alice",
        service,
        &ap_req,
        &[KdcOptionsType::Forwardable],
    )
    .unwrap();
    assert_eq!(request.inner.msg_type.inner, 12);
    let entries = &request.inner.padata.as_ref().unwrap().inner;
    assert_eq!(entries.len(), 1);
    assert_eq!(entries[0].padata_type.inner, 1);
    assert_eq!(entries[0].padata_value.inner.data, to_der(&ap_req));

    let bytes = to_der(&request);
    let reread: TgsReq = from_der(&bytes).unwrap();
    assert_eq!(reread, request);
}

/// The clock hands back calendar fields inside the wire ranges, and the
/// shifted reading stays in range too.
#[test]
fn clock_fields_in_range() {
    for t in [now_utc(), now_plus_days(1), now_plus_days(400)] {
        assert!(t.year <= 9999);
        assert!((1..=12).contains(&t.month));
        assert!((1..=31).contains(&t.day));
        assert!(t.hour <= 23 && t.minute <= 59 && t.second <= 59);
    }
    // The clock is running: the rendering is a plausible current year.
    assert!(now_utc().year >= 2020);
}
