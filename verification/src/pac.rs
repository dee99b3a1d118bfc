//! The MS-PAC binary parser: the PACTYPE container, its info buffers, and
//! the buffer types this toolkit reads (KerbValidationInfo, PacClientInfo,
//! UpnDnsInfo and the two signatures).

use vstd::prelude::*;

verus! {

use crate::error::{KerlabError, KerlabErrorKind, KerlabResult};
use crate::message::{le16_of, le32_of, le64_of, read_u16_le, read_u32_le, read_u64_le};
use crate::ndr::{CommonTypeHeader, FileTime, PrivateHeader, RpcUnicodeString};

/// What decoding UTF-16 code units yields: the characters of the text, a
/// pure function of the units.
pub uninterp spec fn utf16_text_of(units: Seq<u16>) -> Seq<char>;

/// Well-formed UTF-16: every high surrogate is followed by a low one, and
/// no low surrogate stands alone. This is the condition under which
/// decoding succeeds.
pub open spec fn utf16_wf(units: Seq<u16>) -> bool
    decreases units.len(),
{
    if units.len() == 0 {
        true
    } else if 0xd800 <= units[0] < 0xdc00 {
        units.len() >= 2 && 0xdc00 <= units[1] < 0xe000 && utf16_wf(units.skip(2))
    } else if 0xdc00 <= units[0] < 0xe000 {
        false
    } else {
        utf16_wf(units.skip(1))
    }
}

/// Relies on `String::from_utf16` of std: the text is a function of the
/// code units alone, and decoding fails exactly on invalid UTF-16 data,
/// that is an unpaired surrogate.
#[verifier::external_body]
fn utf16_string(units: &[u16]) -> (r: Result<String, KerlabError>)
    ensures
        r is Ok <==> utf16_wf(units@),
        r matches Ok(s) ==> s@ == utf16_text_of(units@),
        r matches Err(e) ==> e.spec_kind() == KerlabErrorKind::Parsing,
{
    match String::from_utf16(units) {
        Ok(s) => Ok(s),
        Err(_) => Err(KerlabError::new(KerlabErrorKind::Parsing, "utf16")),
    }
}

/// The little-endian 16-bit units of a byte range, pairwise.
pub open spec fn units_of(s: Seq<u8>, start: int, count: int) -> Seq<u16> {
    Seq::new(count as nat, |k: int| le16_of(s, start + 2 * k))
}

/// Decode a UTF-16LE byte buffer into text; a trailing odd byte is
/// ignored, as the units are taken pairwise. Decoding succeeds exactly
/// when the units are well-formed UTF-16.
fn read_utf16(buf: &[u8]) -> (r: KerlabResult<String>)
    ensures
        r is Ok <==> utf16_wf(units_of(buf@, 0, buf@.len() as int / 2)),
        r matches Ok(s) ==> s@ == utf16_text_of(
            units_of(buf@, 0, buf@.len() as int / 2),
        ),
        r matches Err(e) ==> e.spec_kind() == KerlabErrorKind::Parsing,
{
    let blen = buf.len();
    let count = blen / 2;
    let mut raw: Vec<u16> = Vec::new();
    let mut k: usize = 0;
    while k < count
        invariant
            k <= count,
            blen == buf@.len(),
            count == buf@.len() / 2,
            raw@ =~= units_of(buf@, 0, count as int).take(k as int),
        decreases count - k,
    {
        let (unit, _) = match read_u16_le(buf, 2 * k) {
            Ok(x) => x,
            Err(e) => {
                return Err(e);
            },
        };
        proof {
            let all = units_of(buf@, 0, count as int);
            assert(all[k as int] == unit);
            assert(all.take(k + 1).drop_last() =~= all.take(k as int));
            assert(raw@.push(unit) =~= all.take(k + 1));
        }
        raw.push(unit);
        k += 1;
    }
    assert(raw@ =~= units_of(buf@, 0, count as int));
    utf16_string(raw.as_slice())
}

/// The bytes of a KERB_VALIDATION_INFO buffer parse iff its fixed prefix
/// is there.
pub open spec fn spec_validation_info_ok(s: Seq<u8>) -> bool {
    s.len() >= 76
}

/// What the fixed prefix of a KERB_VALIDATION_INFO buffer holds.
pub open spec fn validation_info_matches(v: KerbValidationInfo, s: Seq<u8>) -> bool {
    &&& v.common_header.version == s[0]
    &&& v.common_header.endianness == s[1]
    &&& v.common_header.common_header_length == le16_of(s, 2)
    &&& v.common_header.filler == le32_of(s, 4)
    &&& v.private_header.object_buffer_length == le32_of(s, 8)
    &&& v.private_header.filler == le32_of(s, 12)
    &&& v.padding == le32_of(s, 16)
    &&& v.logon_time.dw_low_date_time == le32_of(s, 20)
    &&& v.logon_time.dw_high_date_time == le32_of(s, 24)
    &&& v.logoff_time.dw_low_date_time == le32_of(s, 28)
    &&& v.logoff_time.dw_high_date_time == le32_of(s, 32)
    &&& v.kick_off_time.dw_low_date_time == le32_of(s, 36)
    &&& v.kick_off_time.dw_high_date_time == le32_of(s, 40)
    &&& v.password_last_set.dw_low_date_time == le32_of(s, 44)
    &&& v.password_last_set.dw_high_date_time == le32_of(s, 48)
    &&& v.password_can_change.dw_low_date_time == le32_of(s, 52)
    &&& v.password_can_change.dw_high_date_time == le32_of(s, 56)
    &&& v.password_must_change.dw_low_date_time == le32_of(s, 60)
    &&& v.password_must_change.dw_high_date_time == le32_of(s, 64)
    &&& v.effective_name.length == le16_of(s, 68)
    &&& v.effective_name.maximum_length == le16_of(s, 70)
    &&& v.effective_name.buffer == le32_of(s, 72)
}

/// The UTF-16 code units of the client name a PAC_CLIENT_INFO buffer
/// carries.
pub open spec fn client_name_units(s: Seq<u8>) -> Seq<u16> {
    units_of(s.subrange(10, 10 + le16_of(s, 8) as int), 0, le16_of(s, 8) as int / 2)
}

/// The bytes of a PAC_CLIENT_INFO buffer parse iff the header fits, the
/// announced name fits, and the name is well-formed UTF-16.
pub open spec fn spec_client_info_ok(s: Seq<u8>) -> bool {
    &&& s.len() >= 10
    &&& 10 + le16_of(s, 8) <= s.len()
    &&& utf16_wf(client_name_units(s))
}

/// What a PAC_CLIENT_INFO buffer holds: the client id, the name length,
/// and the decoded client name.
pub open spec fn client_info_matches(v: PacClientInfo, s: Seq<u8>) -> bool {
    &&& v.client_id.dw_low_date_time == le32_of(s, 0)
    &&& v.client_id.dw_high_date_time == le32_of(s, 4)
    &&& v.name_length == le16_of(s, 8)
    &&& v.name@ == utf16_text_of(client_name_units(s))
}

/// The UTF-16 code units a UPN_DNS_INFO offset/length pair addresses.
pub open spec fn upn_field_units(s: Seq<u8>, off: u16, len: u16) -> Seq<u16> {
    units_of(s.subrange(off as int, off as int + len as int), 0, len as int / 2)
}

/// The bytes of a UPN_DNS_INFO buffer parse iff the header fits, both
/// addressed ranges fit, and both strings are well-formed UTF-16.
pub open spec fn spec_upn_dns_ok(s: Seq<u8>) -> bool {
    &&& s.len() >= 12
    &&& le16_of(s, 2) + le16_of(s, 0) <= s.len()
    &&& le16_of(s, 6) + le16_of(s, 4) <= s.len()
    &&& utf16_wf(upn_field_units(s, le16_of(s, 2), le16_of(s, 0)))
    &&& utf16_wf(upn_field_units(s, le16_of(s, 6), le16_of(s, 4)))
}

/// What a UPN_DNS_INFO buffer holds: the offsets, the flags, and the two
/// decoded strings.
pub open spec fn upn_dns_matches(v: UpnDnsInfo, s: Seq<u8>) -> bool {
    &&& v.upn_length == le16_of(s, 0)
    &&& v.upn_offset == le16_of(s, 2)
    &&& v.dns_domain_name_length == le16_of(s, 4)
    &&& v.dns_domain_name_offset == le16_of(s, 6)
    &&& v.flags == le32_of(s, 8)
    &&& v.upn@ == utf16_text_of(upn_field_units(s, le16_of(s, 2), le16_of(s, 0)))
    &&& v.dns@ == utf16_text_of(upn_field_units(s, le16_of(s, 6), le16_of(s, 4)))
}

/// The bytes of a PAC_SIGNATURE_DATA buffer parse iff the type word is
/// known, its signature fits, and the trailing identifier is absent or
/// whole.
pub open spec fn spec_signature_ok(s: Seq<u8>) -> bool {
    &&& s.len() >= 4
    &&& spec_signature_len(le32_of(s, 0)) matches Some(n) && s.len() >= 4 + n && (s.len() == 4
        + n || s.len() >= 6 + n)
}

/// What a PAC_SIGNATURE_DATA buffer holds: the type, the signature bytes,
/// and the identifier exactly when bytes trail the signature.
pub open spec fn signature_matches(v: PacSignatureData, s: Seq<u8>) -> bool {
    &&& v.signature_type == le32_of(s, 0)
    &&& spec_signature_len(v.signature_type) matches Some(n) && v.signature@ == s.subrange(
        4,
        4 + n,
    ) && (if s.len() == 4 + n {
        v.rodcidentifier is None
    } else {
        v.rodcidentifier == Some(le16_of(s, 4 + n))
    })
}

/// One PAC_INFO_BUFFER descriptor: the buffer type, its size, and its
/// absolute offset in the PACTYPE blob.
#[derive(Debug, Clone, PartialEq, Eq, Structural, Default)]
pub struct PacInfoBuffer {
    pub ul_type: u32,
    pub cb_buffer_size: u32,
    pub offset: u64,
}

impl PacInfoBuffer {
    /// Read the sixteen descriptor bytes at `pos`.
    pub fn read(s: &[u8], pos: usize) -> (r: Result<(Self, usize), KerlabError>)
        ensures
            match r {
                Ok((b, next)) => {
                    &&& pos + 16 <= s@.len()
                    &&& next == pos + 16
                    &&& b.ul_type == le32_of(s@, pos as int)
                    &&& b.cb_buffer_size == le32_of(s@, pos as int + 4)
                    &&& b.offset == le64_of(s@, pos as int + 8)
                },
                Err(e) => pos + 16 > s@.len() && e.spec_kind() == KerlabErrorKind::Parsing,
            },
    {
        let (ul_type, p1) = match read_u32_le(s, pos) {
            Ok(x) => x,
            Err(e) => {
                return Err(e);
            },
        };
        let (cb_buffer_size, p2) = match read_u32_le(s, p1) {
            Ok(x) => x,
            Err(e) => {
                return Err(e);
            },
        };
        let (offset, p3) = match read_u64_le(s, p2) {
            Ok(x) => x,
            Err(e) => {
                return Err(e);
            },
        };
        Ok((PacInfoBuffer { ul_type, cb_buffer_size, offset }, p3))
    }

    /// Slice the buffer this descriptor addresses out of the blob and
    /// parse it by its type: this succeeds exactly when the descriptor
    /// lies inside the blob and the slice parses as its type, and the
    /// result's variant is the one the type word names. A descriptor past
    /// the end of the blob or an unimplemented buffer type fails with a
    /// `Parsing` error.
    pub fn into_pac_struct(&self, buffer: &[u8]) -> (r: KerlabResult<PacStruct>)
        ensures
            ({
                let in_range = self.offset + self.cb_buffer_size <= buffer@.len();
                let slice = buffer@.subrange(
                    self.offset as int,
                    self.offset + self.cb_buffer_size,
                );
                match r {
                    Ok(p) => in_range && spec_pac_struct_ok(self.ul_type, slice)
                        && pac_struct_matches(p, self.ul_type, slice),
                    Err(e) => {
                        &&& !(in_range && spec_pac_struct_ok(self.ul_type, slice))
                        &&& (e.spec_kind() == KerlabErrorKind::Parsing || e.spec_kind()
                            == KerlabErrorKind::Unknown)
                        &&& (e.spec_kind() == KerlabErrorKind::Unknown ==> self.ul_type == 6
                            || self.ul_type == 7)
                    },
                }
            }),
    {
        if self.offset > buffer.len() as u64 || self.cb_buffer_size as u64 > buffer.len() as u64
            - self.offset {
            return Err(KerlabError::new(KerlabErrorKind::Parsing, "buffer outside the blob"));
        }
        let start = self.offset as usize;
        let end = start + self.cb_buffer_size as usize;
        let view = vstd::slice::slice_subrange(buffer, start, end);
        proof {
            assert(view@ =~= buffer@.subrange(
                self.offset as int,
                self.offset + self.cb_buffer_size,
            ));
        }
        if self.ul_type == 1 {
            match KerbValidationInfo::from(view) {
                Ok(v) => Ok(PacStruct::KerbValidationInfo(v)),
                Err(e) => Err(e),
            }
        } else if self.ul_type == 6 {
            match PacSignatureData::from(view) {
                Ok(v) => Ok(PacStruct::ServerChecksum(v)),
                Err(e) => Err(e),
            }
        } else if self.ul_type == 7 {
            match PacSignatureData::from(view) {
                Ok(v) => Ok(PacStruct::KDCChecksum(v)),
                Err(e) => Err(e),
            }
        } else if self.ul_type == 10 {
            match PacClientInfo::from(view) {
                Ok(v) => Ok(PacStruct::PacClientInfo(v)),
                Err(e) => Err(e),
            }
        } else if self.ul_type == 12 {
            match UpnDnsInfo::from(view) {
                Ok(v) => Ok(PacStruct::UpnDnsInfo(v)),
                Err(e) => Err(e),
            }
        } else {
            Err(KerlabError::new(KerlabErrorKind::Parsing, "unimplemented PAC buffer type"))
        }
    }
}

/// Whether the bytes of a buffer of the given type parse: dispatch of the
/// per-type conditions; an unimplemented type never parses.
pub open spec fn spec_pac_struct_ok(ul_type: u32, s: Seq<u8>) -> bool {
    if ul_type == 1 {
        spec_validation_info_ok(s)
    } else if ul_type == 6 || ul_type == 7 {
        spec_signature_ok(s)
    } else if ul_type == 10 {
        spec_client_info_ok(s)
    } else if ul_type == 12 {
        spec_upn_dns_ok(s)
    } else {
        false
    }
}

/// What a parsed buffer holds for its type: the variant is determined by
/// the type word, and the contents by the per-type relation.
pub open spec fn pac_struct_matches(p: PacStruct, ul_type: u32, s: Seq<u8>) -> bool {
    match p {
        PacStruct::KerbValidationInfo(v) => ul_type == 1 && validation_info_matches(v, s),
        PacStruct::ServerChecksum(v) => ul_type == 6 && signature_matches(v, s),
        PacStruct::KDCChecksum(v) => ul_type == 7 && signature_matches(v, s),
        PacStruct::PacClientInfo(v) => ul_type == 10 && client_info_matches(v, s),
        PacStruct::UpnDnsInfo(v) => ul_type == 12 && upn_dns_matches(v, s),
    }
}

/// The type word of the `i`-th PAC_INFO_BUFFER descriptor of a PACTYPE
/// blob.
pub open spec fn pac_entry_type(s: Seq<u8>, i: int) -> u32 {
    le32_of(s, 8 + 16 * i)
}

/// The size of the `i`-th descriptor's buffer.
pub open spec fn pac_entry_size(s: Seq<u8>, i: int) -> u32 {
    le32_of(s, 8 + 16 * i + 4)
}

/// The absolute offset of the `i`-th descriptor's buffer.
pub open spec fn pac_entry_offset(s: Seq<u8>, i: int) -> u64 {
    le64_of(s, 8 + 16 * i + 8)
}

/// The bytes the `i`-th descriptor addresses.
pub open spec fn pac_entry_slice(s: Seq<u8>, i: int) -> Seq<u8> {
    s.subrange(
        pac_entry_offset(s, i) as int,
        pac_entry_offset(s, i) + pac_entry_size(s, i),
    )
}

/// The `i`-th entry parses: its buffer lies inside the blob and the bytes
/// parse as its type.
pub open spec fn pac_entry_ok(s: Seq<u8>, i: int) -> bool {
    &&& pac_entry_offset(s, i) + pac_entry_size(s, i) <= s.len()
    &&& spec_pac_struct_ok(pac_entry_type(s, i), pac_entry_slice(s, i))
}

/// A PACTYPE blob parses: the header and every descriptor fit, and every
/// addressed buffer parses as its type.
pub open spec fn spec_pactype_ok(s: Seq<u8>) -> bool {
    &&& s.len() >= 8
    &&& 8 + 16 * (le32_of(s, 0) as int) <= s.len()
    &&& forall|i: int| 0 <= i < le32_of(s, 0) ==> #[trigger] pac_entry_ok(s, i)
}

/// The PACTYPE container: the buffer count, the version, and the parsed
/// buffers.
#[derive(Debug)]
pub struct PacType {
    pub c_buffers: u32,
    pub version: u32,
    pub buffers: Vec<PacStruct>,
}

impl PacType {
    /// Parse a PACTYPE blob as carried in an AD-WIN2K-PAC authorization
    /// data element: the header, then one descriptor and one buffer per
    /// entry. Parsing succeeds exactly when every descriptor fits and
    /// every addressed buffer parses as its type, and then each parsed
    /// buffer holds what its descriptor's bytes say.
    pub fn from_addata(buffer: &[u8]) -> (r: KerlabResult<Self>)
        ensures
            match r {
                Ok(p) => {
                    &&& spec_pactype_ok(buffer@)
                    &&& p.c_buffers == le32_of(buffer@, 0)
                    &&& p.version == le32_of(buffer@, 4)
                    &&& p.buffers@.len() == p.c_buffers
                    &&& forall|i: int|
                        0 <= i < p.c_buffers ==> pac_struct_matches(
                            #[trigger] p.buffers@[i],
                            pac_entry_type(buffer@, i),
                            pac_entry_slice(buffer@, i),
                        )
                },
                Err(e) => !spec_pactype_ok(buffer@) && (e.spec_kind() == KerlabErrorKind::Parsing
                    || e.spec_kind() == KerlabErrorKind::Unknown),
            },
    {
        let (c_buffers, p1) = match read_u32_le(buffer, 0) {
            Ok(x) => x,
            Err(e) => {
                return Err(e);
            },
        };
        let (version, mut pos) = match read_u32_le(buffer, p1) {
            Ok(x) => x,
            Err(e) => {
                return Err(e);
            },
        };
        let mut buffers: Vec<PacStruct> = Vec::new();
        let mut i: u32 = 0;
        while i < c_buffers
            invariant
                i <= c_buffers,
                8 <= buffer@.len(),
                c_buffers == le32_of(buffer@, 0),
                version == le32_of(buffer@, 4),
                pos as int == 8 + 16 * (i as int),
                pos <= buffer@.len(),
                buffers@.len() == i as int,
                forall|j: int| 0 <= j < i ==> #[trigger] pac_entry_ok(buffer@, j),
                forall|j: int|
                    0 <= j < i ==> pac_struct_matches(
                        #[trigger] buffers@[j],
                        pac_entry_type(buffer@, j),
                        pac_entry_slice(buffer@, j),
                    ),
            decreases c_buffers - i,
        {
            let (info, next) = match PacInfoBuffer::read(buffer, pos) {
                Ok(x) => x,
                Err(e) => {
                    proof {
                        if spec_pactype_ok(buffer@) {
                            assert(16 * (i as int + 1) <= 16 * (c_buffers as int));
                        }
                    }
                    return Err(e);
                },
            };
            proof {
                assert(info.ul_type == pac_entry_type(buffer@, i as int));
                assert(info.cb_buffer_size == pac_entry_size(buffer@, i as int));
                assert(info.offset == pac_entry_offset(buffer@, i as int));
            }
            let parsed = match info.into_pac_struct(buffer) {
                Ok(x) => x,
                Err(e) => {
                    proof {
                        assert(buffer@.subrange(
                            info.offset as int,
                            info.offset + info.cb_buffer_size,
                        ) == pac_entry_slice(buffer@, i as int));
                        assert(!pac_entry_ok(buffer@, i as int));
                    }
                    return Err(e);
                },
            };
            proof {
                assert(buffer@.subrange(
                    info.offset as int,
                    info.offset + info.cb_buffer_size,
                ) == pac_entry_slice(buffer@, i as int));
                assert(pac_entry_ok(buffer@, i as int));
            }
            pos = next;
            buffers.push(parsed);
            i += 1;
        }
        proof {
            assert(spec_pactype_ok(buffer@));
        }
                Ok(PacType { c_buffers, version, buffers })
    }
}

/// The partially parsed KERB_VALIDATION_INFO: the NDR headers, the six
/// FILETIMEs, and the first RPC_UNICODE_STRING header.
#[derive(Debug, Clone, PartialEq, Eq, Structural, Default)]
pub struct KerbValidationInfo {
    pub common_header: CommonTypeHeader,
    pub private_header: PrivateHeader,
    pub padding: u32,
    pub logon_time: FileTime,
    pub logoff_time: FileTime,
    pub kick_off_time: FileTime,
    pub password_last_set: FileTime,
    pub password_can_change: FileTime,
    pub password_must_change: FileTime,
    pub effective_name: RpcUnicodeString,
}

impl KerbValidationInfo {
    /// Parse the fixed prefix of a KERB_VALIDATION_INFO buffer, which is
    /// read exactly when the 76 prefix bytes are there.
    pub fn from(buf: &[u8]) -> (r: KerlabResult<Self>)
        ensures
            match r {
                Ok(v) => spec_validation_info_ok(buf@) && validation_info_matches(v, buf@),
                Err(e) => !spec_validation_info_ok(buf@) && e.spec_kind()
                    == KerlabErrorKind::Parsing,
            },
    {
        let (common_header, p1) = match CommonTypeHeader::read(buf, 0) {
            Ok(x) => x,
            Err(e) => {
                return Err(e);
            },
        };
        let (private_header, p2) = match PrivateHeader::read(buf, p1) {
            Ok(x) => x,
            Err(e) => {
                return Err(e);
            },
        };
        let (padding, p3) = match read_u32_le(buf, p2) {
            Ok(x) => x,
            Err(e) => {
                return Err(e);
            },
        };
        let (logon_time, p4) = match FileTime::read(buf, p3) {
            Ok(x) => x,
            Err(e) => {
                return Err(e);
            },
        };
        let (logoff_time, p5) = match FileTime::read(buf, p4) {
            Ok(x) => x,
            Err(e) => {
                return Err(e);
            },
        };
        let (kick_off_time, p6) = match FileTime::read(buf, p5) {
            Ok(x) => x,
            Err(e) => {
                return Err(e);
            },
        };
        let (password_last_set, p7) = match FileTime::read(buf, p6) {
            Ok(x) => x,
            Err(e) => {
                return Err(e);
            },
        };
        let (password_can_change, p8) = match FileTime::read(buf, p7) {
            Ok(x) => x,
            Err(e) => {
                return Err(e);
            },
        };
        let (password_must_change, p9) = match FileTime::read(buf, p8) {
            Ok(x) => x,
            Err(e) => {
                return Err(e);
            },
        };
        let (effective_name, _) = match RpcUnicodeString::read(buf, p9) {
            Ok(x) => x,
            Err(e) => {
                return Err(e);
            },
        };
        Ok(
            KerbValidationInfo {
                common_header,
                private_header,
                padding,
                logon_time,
                logoff_time,
                kick_off_time,
                password_last_set,
                password_can_change,
                password_must_change,
                effective_name,
            },
        )
    }
}

/// The PAC_CLIENT_INFO buffer: the client id and the UTF-16 client name.
#[derive(Debug, Clone, PartialEq, Default)]
pub struct PacClientInfo {
    pub client_id: FileTime,
    pub name_length: u16,
    pub name: String,
}

impl PacClientInfo {
    /// Parse a PAC_CLIENT_INFO buffer: the FILETIME, the name length, then
    /// that many UTF-16LE name bytes. The buffer is read exactly when the
    /// header and the announced name fit and the name is well-formed
    /// UTF-16.
    pub fn from(buf: &[u8]) -> (r: KerlabResult<Self>)
        ensures
            match r {
                Ok(v) => spec_client_info_ok(buf@) && client_info_matches(v, buf@),
                Err(e) => !spec_client_info_ok(buf@) && e.spec_kind()
                    == KerlabErrorKind::Parsing,
            },
    {
        let (client_id, p1) = match FileTime::read(buf, 0) {
            Ok(x) => x,
            Err(e) => {
                return Err(e);
            },
        };
        let (name_length, p2) = match read_u16_le(buf, p1) {
            Ok(x) => x,
            Err(e) => {
                return Err(e);
            },
        };
        if name_length as usize > buf.len() - p2 {
            return Err(KerlabError::new(KerlabErrorKind::Parsing, "client name past the buffer"));
        }
        let name_bytes = vstd::slice::slice_subrange(buf, p2, p2 + name_length as usize);
        let name = match read_utf16(name_bytes) {
            Ok(s) => s,
            Err(e) => {
                return Err(e);
            },
        };
        Ok(PacClientInfo { client_id, name_length, name })
    }
}

/// The UPN_DNS_INFO buffer: the user principal name and the DNS domain.
#[derive(Debug, Clone, PartialEq, Default)]
pub struct UpnDnsInfo {
    pub upn_length: u16,
    pub upn_offset: u16,
    pub dns_domain_name_length: u16,
    pub dns_domain_name_offset: u16,
    pub flags: u32,
    pub upn: String,
    pub dns: String,
}

impl UpnDnsInfo {
    /// Parse a UPN_DNS_INFO buffer: four offset/length words, the flags,
    /// and the two UTF-16LE strings the offsets address. The buffer is
    /// read exactly when the header and both addressed ranges fit and both
    /// strings are well-formed UTF-16.
    pub fn from(buf: &[u8]) -> (r: KerlabResult<Self>)
        ensures
            match r {
                Ok(v) => spec_upn_dns_ok(buf@) && upn_dns_matches(v, buf@),
                Err(e) => !spec_upn_dns_ok(buf@) && e.spec_kind() == KerlabErrorKind::Parsing,
            },
    {
        let (upn_length, p1) = match read_u16_le(buf, 0) {
            Ok(x) => x,
            Err(e) => {
                return Err(e);
            },
        };
        let (upn_offset, p2) = match read_u16_le(buf, p1) {
            Ok(x) => x,
            Err(e) => {
                return Err(e);
            },
        };
        let (dns_domain_name_length, p3) = match read_u16_le(buf, p2) {
            Ok(x) => x,
            Err(e) => {
                return Err(e);
            },
        };
        let (dns_domain_name_offset, p4) = match read_u16_le(buf, p3) {
            Ok(x) => x,
            Err(e) => {
                return Err(e);
            },
        };
        let (flags, _) = match read_u32_le(buf, p4) {
            Ok(x) => x,
            Err(e) => {
                return Err(e);
            },
        };
        if upn_offset as usize > buf.len() || upn_length as usize > buf.len() - upn_offset
            as usize {
            return Err(KerlabError::new(KerlabErrorKind::Parsing, "UPN past the buffer"));
        }
        if dns_domain_name_offset as usize > buf.len() || dns_domain_name_length as usize
            > buf.len() - dns_domain_name_offset as usize {
            return Err(KerlabError::new(KerlabErrorKind::Parsing, "DNS name past the buffer"));
        }
        let upn = match read_utf16(
            vstd::slice::slice_subrange(
                buf,
                upn_offset as usize,
                upn_offset as usize + upn_length as usize,
            ),
        ) {
            Ok(s) => s,
            Err(e) => {
                return Err(e);
            },
        };
        let dns = match read_utf16(
            vstd::slice::slice_subrange(
                buf,
                dns_domain_name_offset as usize,
                dns_domain_name_offset as usize + dns_domain_name_length as usize,
            ),
        ) {
            Ok(s) => s,
            Err(e) => {
                return Err(e);
            },
        };
        Ok(
            UpnDnsInfo {
                upn_length,
                upn_offset,
                dns_domain_name_length,
                dns_domain_name_offset,
                flags,
                upn,
                dns,
            },
        )
    }
}

/// A PAC_SIGNATURE_DATA buffer: the signature type, the signature bytes,
/// and an optional read-only domain controller identifier.
#[derive(Debug, Clone, PartialEq, Default)]
pub struct PacSignatureData {
    pub signature_type: u32,
    pub signature: Vec<u8>,
    pub rodcidentifier: Option<u16>,
}

/// The signature length each checksum type carries: 16 bytes for
/// KERB_CHECKSUM_HMAC_MD5, 12 for the two AES types.
pub open spec fn spec_signature_len(signature_type: u32) -> Option<int> {
    if signature_type == 0xffffff76 {
        Some(16)
    } else if signature_type == 0xf || signature_type == 0x10 {
        Some(12)
    } else {
        None
    }
}

impl PacSignatureData {
    /// Parse a PAC_SIGNATURE_DATA buffer, which is read exactly when its
    /// type word is known, its signature fits, and the trailing identifier
    /// is absent or whole. An unknown checksum type fails with an
    /// `Unknown` error; a buffer too short for its parts with a `Parsing`
    /// error.
    pub fn from(buf: &[u8]) -> (r: KerlabResult<Self>)
        ensures
            match r {
                Ok(v) => spec_signature_ok(buf@) && signature_matches(v, buf@),
                Err(e) => {
                    &&& !spec_signature_ok(buf@)
                    &&& e.spec_kind() == (if buf@.len() >= 4 && spec_signature_len(
                        le32_of(buf@, 0),
                    ) is None {
                        KerlabErrorKind::Unknown
                    } else {
                        KerlabErrorKind::Parsing
                    })
                },
            },
    {
        let (signature_type, p1) = match read_u32_le(buf, 0) {
            Ok(x) => x,
            Err(e) => {
                return Err(e);
            },
        };
        let sig_len: usize = if signature_type == 0xffffff76 {
            16
        } else if signature_type == 0xf || signature_type == 0x10 {
            12
        } else {
            return Err(KerlabError::new(KerlabErrorKind::Unknown, "unknown checksum type"));
        };
        if buf.len() < p1 + sig_len {
            return Err(KerlabError::new(KerlabErrorKind::Parsing, "signature past the buffer"));
        }
        let signature = vstd::slice::slice_to_vec(
            vstd::slice::slice_subrange(buf, p1, p1 + sig_len),
        );
        let mut rodcidentifier: Option<u16> = None;
        if p1 + sig_len != buf.len() {
            let (id, _) = match read_u16_le(buf, p1 + sig_len) {
                Ok(x) => x,
                Err(e) => {
                    return Err(e);
                },
            };
            rodcidentifier = Some(id);
        }
        Ok(PacSignatureData { signature_type, signature, rodcidentifier })
    }
}

/// Any PAC buffer this toolkit parses.
#[derive(Debug)]
pub enum PacStruct {
    KerbValidationInfo(KerbValidationInfo),
    PacClientInfo(PacClientInfo),
    UpnDnsInfo(UpnDnsInfo),
    ServerChecksum(PacSignatureData),
    KDCChecksum(PacSignatureData),
}

} // verus!
