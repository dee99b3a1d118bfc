//! The NTLM hash: the password encoded as UTF-16LE and digested with MD4,
//! used as RC4-HMAC key material.

use vstd::prelude::*;

verus! {

use crate::error::KerlabResult;

/// An NTLM hash: 16 bytes of MD4 output.
pub type NtlmHash = Vec<u8>;

/// What MD4 returns: a pure function of the data.
pub uninterp spec fn md4_of(data: Seq<u8>) -> Seq<u8>;

/// Relies on `md4::Md4`: the digest is a function of the data alone,
/// 16 bytes long.
#[verifier::external_body]
fn md4_digest(data: &[u8]) -> (r: Vec<u8>)
    ensures
        r@ == md4_of(data@),
        r@.len() == 16,
{
    <md4::Md4 as md4::Digest>::digest(data).to_vec()
}

/// The UTF-16 code units of one character, as little-endian bytes: one unit
/// below `0x10000`, else a surrogate pair.
pub open spec fn utf16_units(c: char) -> Seq<u8> {
    let cp = c as u32;
    if cp < 0x10000 {
        seq![(cp % 256) as u8, ((cp / 256) % 256) as u8]
    } else {
        let v = (cp - 0x10000) as u32;
        let hi = (0xd800 + v / 0x400) as u32;
        let lo = (0xdc00 + v % 0x400) as u32;
        seq![
            (hi % 256) as u8,
            ((hi / 256) % 256) as u8,
            (lo % 256) as u8,
            ((lo / 256) % 256) as u8,
        ]
    }
}

/// The UTF-16LE encoding of a character sequence.
pub open spec fn utf16le_of(s: Seq<char>) -> Seq<u8>
    decreases s.len(),
{
    if s.len() == 0 {
        Seq::empty()
    } else {
        utf16le_of(s.drop_last()) + utf16_units(s.last())
    }
}

/// Encode text as UTF-16LE.
fn unicode(data: &str) -> (r: Vec<u8>)
    ensures
        r@ == utf16le_of(data@),
{
    let mut out: Vec<u8> = Vec::new();
    let len = data.unicode_len();
    let mut i: usize = 0;
    proof {
        assert(data@.take(0) =~= Seq::<char>::empty());
    }
    while i < len
        invariant
            i <= len,
            len == data@.len(),
            out@ == utf16le_of(data@.take(i as int)),
        decreases len - i,
    {
        let c = data.get_char(i);
        let cp = c as u32;
        proof {
            assert(data@.take(i + 1).drop_last() =~= data@.take(i as int));
            assert(data@.take(i + 1).last() == data@[i as int]);
        }
        let ghost out_prev = out@;
        if cp < 0x10000 {
            out.push((cp % 256) as u8);
            out.push(((cp / 256) % 256) as u8);
        } else {
            let v = cp - 0x10000;
            let hi = 0xd800 + v / 0x400;
            let lo = 0xdc00 + v % 0x400;
            out.push((hi % 256) as u8);
            out.push(((hi / 256) % 256) as u8);
            out.push((lo % 256) as u8);
            out.push(((lo / 256) % 256) as u8);
        }
        proof {
            assert(out@ =~= out_prev + utf16_units(c));
        }
        i += 1;
    }
    assert(data@.take(len as int) =~= data@);
    out
}

/// Compute the NTLM hash of a password: MD4 of its UTF-16LE encoding.
pub fn ntlm(password: &str) -> (r: KerlabResult<NtlmHash>)
    ensures
        r matches Ok(h) && h@ == md4_of(utf16le_of(password@)) && h@.len() == 16,
{
    let encoded = unicode(password);
    Ok(md4_digest(encoded.as_slice()))
}

} // verus!
