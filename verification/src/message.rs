//! Little-endian readers for the binary (non-ASN.1) structures the PAC
//! carries, over a byte buffer and a cursor position.

use vstd::prelude::*;

verus! {

use crate::error::{KerlabError, KerlabErrorKind};

/// A little-endian 16-bit field.
pub type U16LE = u16;

/// A little-endian 32-bit field.
pub type U32LE = u32;

/// The little-endian 16-bit value at offset `i`.
pub open spec fn le16_of(s: Seq<u8>, i: int) -> u16 {
    (s[i] + s[i + 1] * 256) as u16
}

/// The little-endian 32-bit value at offset `i`.
pub open spec fn le32_of(s: Seq<u8>, i: int) -> u32 {
    (s[i] + s[i + 1] * 0x100 + s[i + 2] * 0x1_0000 + s[i + 3] * 0x100_0000) as u32
}

/// The little-endian 64-bit value at offset `i`.
pub open spec fn le64_of(s: Seq<u8>, i: int) -> u64 {
    (le32_of(s, i) + le32_of(s, i + 4) * 0x1_0000_0000) as u64
}

fn truncated() -> (e: KerlabError)
    ensures
        e.spec_kind() == KerlabErrorKind::Parsing,
{
    KerlabError::new(KerlabErrorKind::Parsing, "buffer too short")
}

/// Read one byte at `pos`.
pub fn read_u8(s: &[u8], pos: usize) -> (r: Result<(u8, usize), KerlabError>)
    ensures
        match r {
            Ok((v, next)) => pos + 1 <= s@.len() && next == pos + 1 && v == s@[pos as int],
            Err(e) => pos + 1 > s@.len() && e.spec_kind() == KerlabErrorKind::Parsing,
        },
{
    if pos >= s.len() {
        return Err(truncated());
    }
    Ok((*vstd::slice::slice_index_get(s, pos), pos + 1))
}

/// Read a little-endian 16-bit value at `pos`.
pub fn read_u16_le(s: &[u8], pos: usize) -> (r: Result<(u16, usize), KerlabError>)
    ensures
        match r {
            Ok((v, next)) => pos + 2 <= s@.len() && next == pos + 2 && v == le16_of(
                s@,
                pos as int,
            ),
            Err(e) => pos + 2 > s@.len() && e.spec_kind() == KerlabErrorKind::Parsing,
        },
{
    if s.len() < 2 || pos > s.len() - 2 {
        return Err(truncated());
    }
    let b0 = *vstd::slice::slice_index_get(s, pos);
    let b1 = *vstd::slice::slice_index_get(s, pos + 1);
    Ok((b0 as u16 + b1 as u16 * 256, pos + 2))
}

/// Read a little-endian 32-bit value at `pos`.
pub fn read_u32_le(s: &[u8], pos: usize) -> (r: Result<(u32, usize), KerlabError>)
    ensures
        match r {
            Ok((v, next)) => pos + 4 <= s@.len() && next == pos + 4 && v == le32_of(
                s@,
                pos as int,
            ),
            Err(e) => pos + 4 > s@.len() && e.spec_kind() == KerlabErrorKind::Parsing,
        },
{
    if s.len() < 4 || pos > s.len() - 4 {
        return Err(truncated());
    }
    let b0 = *vstd::slice::slice_index_get(s, pos);
    let b1 = *vstd::slice::slice_index_get(s, pos + 1);
    let b2 = *vstd::slice::slice_index_get(s, pos + 2);
    let b3 = *vstd::slice::slice_index_get(s, pos + 3);
    Ok((b0 as u32 + b1 as u32 * 0x100 + b2 as u32 * 0x1_0000 + b3 as u32 * 0x100_0000, pos + 4))
}

/// Read a little-endian 64-bit value at `pos`.
pub fn read_u64_le(s: &[u8], pos: usize) -> (r: Result<(u64, usize), KerlabError>)
    ensures
        match r {
            Ok((v, next)) => pos + 8 <= s@.len() && next == pos + 8 && v == le64_of(
                s@,
                pos as int,
            ),
            Err(e) => pos + 8 > s@.len() && e.spec_kind() == KerlabErrorKind::Parsing,
        },
{
    if s.len() < 8 || pos > s.len() - 8 {
        return Err(truncated());
    }
    let (lo, _) = match read_u32_le(s, pos) {
        Ok(x) => x,
        Err(e) => {
            return Err(e);
        },
    };
    let (hi, _) = match read_u32_le(s, pos + 4) {
        Ok(x) => x,
        Err(e) => {
            return Err(e);
        },
    };
    Ok((lo as u64 + hi as u64 * 0x1_0000_0000, pos + 8))
}

} // verus!
