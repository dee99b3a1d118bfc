//! The small slice of NDR marshalling the PAC parser needs: the common and
//! private headers, FILETIME, and the RPC_UNICODE_STRING header.

use vstd::prelude::*;

verus! {

use crate::error::KerlabError;
use crate::message::{le16_of, le32_of, read_u16_le, read_u32_le, read_u8, U16LE, U32LE};

/// The NDR common type header: version, endianness, header length, filler.
#[derive(Debug, Clone, PartialEq, Eq, Structural, Default)]
pub struct CommonTypeHeader {
    pub version: u8,
    pub endianness: u8,
    pub common_header_length: U16LE,
    pub filler: U32LE,
}

impl CommonTypeHeader {
    /// Read the eight header bytes at `pos`.
    pub fn read(s: &[u8], pos: usize) -> (r: Result<(Self, usize), KerlabError>)
        ensures
            match r {
                Ok((h, next)) => {
                    &&& pos + 8 <= s@.len()
                    &&& next == pos + 8
                    &&& h.version == s@[pos as int]
                    &&& h.endianness == s@[pos as int + 1]
                    &&& h.common_header_length == le16_of(s@, pos as int + 2)
                    &&& h.filler == le32_of(s@, pos as int + 4)
                },
                Err(e) => pos + 8 > s@.len() && e.spec_kind()
                    == crate::error::KerlabErrorKind::Parsing,
            },
    {
        let (version, p1) = match read_u8(s, pos) {
            Ok(x) => x,
            Err(e) => {
                return Err(e);
            },
        };
        let (endianness, p2) = match read_u8(s, p1) {
            Ok(x) => x,
            Err(e) => {
                return Err(e);
            },
        };
        let (common_header_length, p3) = match read_u16_le(s, p2) {
            Ok(x) => x,
            Err(e) => {
                return Err(e);
            },
        };
        let (filler, p4) = match read_u32_le(s, p3) {
            Ok(x) => x,
            Err(e) => {
                return Err(e);
            },
        };
        Ok((CommonTypeHeader { version, endianness, common_header_length, filler }, p4))
    }
}

/// The NDR private header: the object buffer length and filler.
#[derive(Debug, Clone, PartialEq, Eq, Structural, Default)]
pub struct PrivateHeader {
    pub object_buffer_length: U32LE,
    pub filler: U32LE,
}

impl PrivateHeader {
    /// Read the eight header bytes at `pos`.
    pub fn read(s: &[u8], pos: usize) -> (r: Result<(Self, usize), KerlabError>)
        ensures
            match r {
                Ok((h, next)) => {
                    &&& pos + 8 <= s@.len()
                    &&& next == pos + 8
                    &&& h.object_buffer_length == le32_of(s@, pos as int)
                    &&& h.filler == le32_of(s@, pos as int + 4)
                },
                Err(e) => pos + 8 > s@.len() && e.spec_kind()
                    == crate::error::KerlabErrorKind::Parsing,
            },
    {
        let (object_buffer_length, p1) = match read_u32_le(s, pos) {
            Ok(x) => x,
            Err(e) => {
                return Err(e);
            },
        };
        let (filler, p2) = match read_u32_le(s, p1) {
            Ok(x) => x,
            Err(e) => {
                return Err(e);
            },
        };
        Ok((PrivateHeader { object_buffer_length, filler }, p2))
    }
}

/// A Windows FILETIME: two 32-bit halves of a 100-nanosecond count since
/// the year 1601.
#[derive(Debug, Clone, PartialEq, Eq, Structural, Default)]
pub struct FileTime {
    pub dw_low_date_time: U32LE,
    pub dw_high_date_time: U32LE,
}

/// The difference between the FILETIME epoch (1601) and the Unix epoch
/// (1970), in 100-nanosecond ticks.
pub open spec fn filetime_unix_offset() -> u64 {
    116444736000000000
}

/// The Unix seconds a FILETIME denotes: the epoch when either half is
/// all-ones or zero (the never/forever markers), and the epoch again for
/// instants before 1970.
pub open spec fn spec_filetime_secs(low: u32, high: u32) -> u64 {
    if high == 0xffffffff || low == 0xffffffff || high == 0 || low == 0 {
        0
    } else {
        let ticks = (high * 0x1_0000_0000 + low) as u64;
        if ticks < filetime_unix_offset() {
            0
        } else {
            ((ticks - filetime_unix_offset()) / 10000000) as u64
        }
    }
}

impl FileTime {
    /// Read the two halves at `pos`.
    pub fn read(s: &[u8], pos: usize) -> (r: Result<(Self, usize), KerlabError>)
        ensures
            match r {
                Ok((t, next)) => {
                    &&& pos + 8 <= s@.len()
                    &&& next == pos + 8
                    &&& t.dw_low_date_time == le32_of(s@, pos as int)
                    &&& t.dw_high_date_time == le32_of(s@, pos as int + 4)
                },
                Err(e) => pos + 8 > s@.len() && e.spec_kind()
                    == crate::error::KerlabErrorKind::Parsing,
            },
    {
        let (dw_low_date_time, p1) = match read_u32_le(s, pos) {
            Ok(x) => x,
            Err(e) => {
                return Err(e);
            },
        };
        let (dw_high_date_time, p2) = match read_u32_le(s, p1) {
            Ok(x) => x,
            Err(e) => {
                return Err(e);
            },
        };
        Ok((FileTime { dw_low_date_time, dw_high_date_time }, p2))
    }

    /// The Unix seconds this FILETIME denotes; an all-ones or zero half
    /// (the never/forever markers) or an instant before 1970 becomes the
    /// epoch itself.
    pub fn datetime(&self) -> (r: u64)
        ensures
            r == spec_filetime_secs(self.dw_low_date_time, self.dw_high_date_time),
    {
        if self.dw_high_date_time == 0xffffffff || self.dw_low_date_time == 0xffffffff
            || self.dw_high_date_time == 0 || self.dw_low_date_time == 0 {
            return 0;
        }
        let ticks: u64 = (self.dw_high_date_time as u64) * 0x1_0000_0000
            + self.dw_low_date_time as u64;
        if ticks < 116444736000000000 {
            return 0;
        }
        (ticks - 116444736000000000) / 10000000
    }
}

/// The header of an NDR RPC_UNICODE_STRING: lengths plus the deferred
/// buffer referent.
#[derive(Debug, Clone, PartialEq, Eq, Structural, Default)]
pub struct RpcUnicodeString {
    pub length: U16LE,
    pub maximum_length: U16LE,
    pub buffer: U32LE,
}

impl RpcUnicodeString {
    /// Read the eight header bytes at `pos`.
    pub fn read(s: &[u8], pos: usize) -> (r: Result<(Self, usize), KerlabError>)
        ensures
            match r {
                Ok((h, next)) => {
                    &&& pos + 8 <= s@.len()
                    &&& next == pos + 8
                    &&& h.length == le16_of(s@, pos as int)
                    &&& h.maximum_length == le16_of(s@, pos as int + 2)
                    &&& h.buffer == le32_of(s@, pos as int + 4)
                },
                Err(e) => pos + 8 > s@.len() && e.spec_kind()
                    == crate::error::KerlabErrorKind::Parsing,
            },
    {
        let (length, p1) = match read_u16_le(s, pos) {
            Ok(x) => x,
            Err(e) => {
                return Err(e);
            },
        };
        let (maximum_length, p2) = match read_u16_le(s, p1) {
            Ok(x) => x,
            Err(e) => {
                return Err(e);
            },
        };
        let (buffer, p3) = match read_u32_le(s, p2) {
            Ok(x) => x,
            Err(e) => {
                return Err(e);
            },
        };
        Ok((RpcUnicodeString { length, maximum_length, buffer }, p3))
    }
}

} // verus!
