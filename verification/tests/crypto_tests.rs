//! Crypto tests: the NTLM vector, digest vectors, the RC4-HMAC round trip
//! with bit-flip detection, the deterministic PAC checksum, and the
//! encryption envelope.

use kerlab::asn1::OctetString;
use kerlab::checksum::{kerberos_hmac_md5, md5};
use kerlab::encryption::{EncryptedData, EncryptionKey, EType, KeyUsage};
use kerlab::error::KerlabErrorKind;
use kerlab::ntlm::ntlm;
use kerlab::rc4hmac::{hmac_md5, Rc4Hmac};

fn rc4_test_key() -> Vec<u8> {
    (1..=16u8).collect()
}

/// The documented NTLM hash of the password `foo`.
#[test]
fn ntlm_test_vector() {
    assert_eq!(
        ntlm("foo").unwrap(),
        [172, 142, 101, 127, 131, 223, 130, 190, 234, 93, 67, 189, 175, 120, 0, 204]
    );
}

/// The well-known MD5 of the empty message, through the digest wrapper.
#[test]
fn md5_empty_vector() {
    assert_eq!(
        md5(b""),
        [
            0xd4, 0x1d, 0x8c, 0xd9, 0x8f, 0x00, 0xb2, 0x04, 0xe9, 0x80, 0x09, 0x98, 0xec, 0xf8,
            0x42, 0x7e
        ]
    );
}

/// The RFC 2202-style HMAC-MD5 vector, through the wrapper.
#[test]
fn hmac_md5_vector() {
    assert_eq!(
        hmac_md5(b"key", b"The quick brown fox jumps over the lazy dog"),
        [
            0x80, 0x07, 0x07, 0x13, 0x46, 0x3e, 0x77, 0x49, 0xb9, 0x0c, 0x2d, 0xc2, 0x49, 0x11,
            0xe2, 0x75
        ]
    );
}

/// Sealing `test` under the 0x0102..10 key with usage 1: at least 20
/// bytes, a 16-byte checksum up front, and a lossless round trip.
#[test]
fn rc4_hmac_vector() {
    let mut cipher = Rc4Hmac::new(rc4_test_key(), KeyUsage::KeyUsageAsReqTimestamp);
    let blob = cipher.encrypt(b"test");
    assert!(blob.len() >= 20);
    assert_eq!(blob.len(), 4 + 24);
    let opened = cipher.decrypt(&blob).unwrap();
    assert_eq!(opened, b"test");
}

/// Flipping any bit of the checksum or the ciphertext fails the keyed
/// checksum with a `Kerberos` error.
#[test]
fn rc4_hmac_detects_bit_flips() {
    let mut cipher = Rc4Hmac::new(rc4_test_key(), KeyUsage::KeyUsageAsRepEncPart);
    let blob = cipher.encrypt(b"payload under test");
    for position in [0, 7, 15, 16, 23, blob.len() - 1] {
        for bit in [0x01u8, 0x80u8] {
            let mut bent = blob.clone();
            bent[position] ^= bit;
            let err = cipher.decrypt(&bent).unwrap_err();
            assert_eq!(err.kind(), KerlabErrorKind::Kerberos);
        }
    }
    let err = cipher.decrypt(&blob[0..20]).unwrap_err();
    assert_eq!(err.kind(), KerlabErrorKind::Kerberos);
}

/// The PAC checksum is a function of key, usage and text alone, and moves
/// with each of them.
#[test]
fn pac_checksum_deterministic() {
    let key = ntlm("Summer2018!").unwrap();
    let one = kerberos_hmac_md5(&key, 17, b"some signed text");
    let two = kerberos_hmac_md5(&key, 17, b"some signed text");
    assert_eq!(one, two);
    assert_eq!(one.len(), 16);
    assert_ne!(one, kerberos_hmac_md5(&key, 7, b"some signed text"));
    assert_ne!(one, kerberos_hmac_md5(&key, 17, b"other text"));
}

/// The envelope round trip: a message sealed under an RC4-HMAC key opens
/// to the same message; a key of another type refuses the blob.
#[test]
fn envelope_round_trip() {
    let key = EncryptionKey::new_rc4_hmac("Summer2018!").unwrap();
    let message = EncryptedData::new(23, OctetString::from_vec(vec![9, 9, 9]));
    let sealed = key
        .encrypt(KeyUsage::KeyUsageAsReqTimestamp, &message)
        .unwrap();
    assert_eq!(sealed.etype.inner, 23);
    let opened: EncryptedData = key
        .decrypt(KeyUsage::KeyUsageAsReqTimestamp, &sealed)
        .unwrap();
    assert_eq!(opened, message);

    let wrong = EncryptionKey::new_no_encryption();
    let err = wrong
        .decrypt::<EncryptedData>(KeyUsage::KeyUsageAsReqTimestamp, &sealed)
        .unwrap_err();
    assert_eq!(err.kind(), KerlabErrorKind::Crypto);

    let unsupported = EncryptionKey::new(EType::Aes256CtsHmacSha196, OctetString::new());
    let err = unsupported
        .encrypt(KeyUsage::KeyUsageAsReqTimestamp, &message)
        .unwrap_err();
    assert_eq!(err.kind(), KerlabErrorKind::Crypto);
}

/// Null encryption stores the DER as the ciphertext and opens it back.
#[test]
fn null_encryption_round_trip() {
    let key = EncryptionKey::new_no_encryption();
    let message = EncryptedData::new(0, OctetString::from_vec(vec![1, 2]));
    let sealed = key
        .encrypt(KeyUsage::KeyUsageAsRepEncPart, &message)
        .unwrap();
    assert_eq!(sealed.etype.inner, 0);
    assert_eq!(sealed.cipher.inner.data, kerlab::asn1::to_der(&message));
    let opened: EncryptedData = key
        .decrypt(KeyUsage::KeyUsageAsRepEncPart, &sealed)
        .unwrap();
    assert_eq!(opened, message);
}

/// Opening a blob sealed under one password with another fails the keyed
/// checksum, and the right password opens it.
#[test]
fn decrypt_as_pins_the_password() {
    let key = EncryptionKey::new_rc4_hmac("Summer2018!").unwrap();
    let message = EncryptedData::new(0, OctetString::from_vec(vec![4, 5, 6]));
    let sealed = key
        .encrypt(KeyUsage::KeyUsageAsRepEncPart, &message)
        .unwrap();
    let opened: EncryptedData = sealed
        .decrypt_as("Summer2018!", KeyUsage::KeyUsageAsRepEncPart)
        .unwrap();
    assert_eq!(opened, message);
    let err = sealed
        .decrypt_as::<EncryptedData>("Winter2018!", KeyUsage::KeyUsageAsRepEncPart)
        .unwrap_err();
    assert_eq!(err.kind(), KerlabErrorKind::Kerberos);
}

