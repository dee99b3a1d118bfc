//! The Checksum wire type of RFC 1510 and the Kerberos HMAC-MD5 checksum
//! of RFC 4757, used by the S4U PA-FOR-USER extension.

use vstd::prelude::*;

verus! {

use crate::asn1::{
    Asn1Data, lemma_concat_nil, lemma_cons_skip, lemma_nil_concat, lemma_skip_skip, lemma_snoc_concat, BitStringView, GeneralString, Integer, OctetString, SequenceOf, SInteger, Tag,
    has_ctx, is_ctx,
};
use crate::base::{KerberosTime, Realm};
use crate::der::{AsnValue, Asn1Value, GeneralizedTime, value_wf};
use crate::error::{KerlabError, KerlabErrorKind};

/// A checksum (`cksumtype[0] INTEGER, checksum[1] OCTET STRING`).
#[derive(Debug, Clone, PartialEq, Default)]
pub struct Checksum {
    pub cksumtype: Tag<0, SInteger>,
    pub checksum: Tag<1, OctetString>,
}

/// The deep view of [`Checksum`].
#[verifier::ext_equal]
pub struct ChecksumView {
    pub cksumtype: i32,
    pub checksum: Seq<u8>,
}

impl DeepView for Checksum {
    type V = ChecksumView;

    open spec fn deep_view(&self) -> ChecksumView {
        ChecksumView {
            cksumtype: self.cksumtype.deep_view(),
            checksum: self.checksum.deep_view(),
        }
    }
}

/// The children a [`Checksum`] writes from its field 0 on.
pub open spec fn checksum_write_0(v: ChecksumView) -> Seq<AsnValue> {
    seq![Tag::<0, SInteger>::spec_to_value(v.cksumtype)] + checksum_write_1(v)
}

/// The children a [`Checksum`] writes from its field 1 on.
pub open spec fn checksum_write_1(v: ChecksumView) -> Seq<AsnValue> {
    seq![Tag::<1, OctetString>::spec_to_value(v.checksum)] + checksum_write_2(v)
}

/// The children a [`Checksum`] writes past its last field: none.
pub open spec fn checksum_write_2(v: ChecksumView) -> Seq<AsnValue> {
    Seq::empty()
}

/// Read the fields of a [`Checksum`] from field 0 on.
pub open spec fn checksum_read_0(cs: Seq<AsnValue>) -> Option<ChecksumView> {
    if cs.len() > 0 {
        match Tag::<0, SInteger>::spec_from_value(cs[0]) {
            Some(f) => checksum_read_1(cs.skip(1), f),
            None => None,
        }
    } else {
        None
    }
}

/// Read the fields of a [`Checksum`] from field 1 on.
pub open spec fn checksum_read_1(cs: Seq<AsnValue>, f_cksumtype: i32) -> Option<ChecksumView> {
    if cs.len() > 0 {
        match Tag::<1, OctetString>::spec_from_value(cs[0]) {
            Some(f) => checksum_read_2(cs.skip(1), f_cksumtype, f),
            None => None,
        }
    } else {
        None
    }
}

/// Past the last field of a [`Checksum`]: the children must be spent.
pub open spec fn checksum_read_2(cs: Seq<AsnValue>, f_cksumtype: i32, f_checksum: Seq<u8>) -> Option<ChecksumView> {
    if cs.len() == 0 {
        Some(ChecksumView {
            cksumtype: f_cksumtype,
            checksum: f_checksum,
        })
    } else {
        None
    }
}

impl Asn1Data for Checksum {
    open spec fn view_wf(v: ChecksumView) -> bool {
        Tag::<0, SInteger>::view_wf(v.cksumtype)
            && Tag::<1, OctetString>::view_wf(v.checksum)
    }

    open spec fn spec_to_value(v: ChecksumView) -> AsnValue {
        AsnValue::Sequence(checksum_write_0(v))
    }

    open spec fn spec_from_value(a: AsnValue) -> Option<ChecksumView> {
        match a {
            AsnValue::Sequence(cs) => checksum_read_0(cs),
            _ => None,
        }
    }

    fn to_value(&self) -> (r: Asn1Value) {
        let ghost v = self.deep_view();
        let mut children: Vec<Asn1Value> = Vec::new();
        let ghost mut gc: Seq<AsnValue> = Seq::empty();
        proof {
            assert(crate::der::view_list(children@) =~= gc);
            lemma_nil_concat(checksum_write_0(v));
            assert(checksum_write_0(v) == gc + checksum_write_0(v));
        }
        let ghost ch_prev0 = children@;
        let ghost gc_prev0 = gc;
        children.push(self.cksumtype.to_value());
        proof {
            assert(children@.drop_last() =~= ch_prev0);
            gc = gc.push(Tag::<0, SInteger>::spec_to_value(self.cksumtype.deep_view()));
            assert(crate::der::view_list(children@) == gc);
            assert(checksum_write_0(v) == seq![Tag::<0, SInteger>::spec_to_value(self.cksumtype.deep_view())] + checksum_write_1(v));
            lemma_snoc_concat(gc_prev0, Tag::<0, SInteger>::spec_to_value(self.cksumtype.deep_view()), checksum_write_1(v));
            assert(checksum_write_0(v) == gc + checksum_write_1(v));
        }
        let ghost ch_prev1 = children@;
        let ghost gc_prev1 = gc;
        children.push(self.checksum.to_value());
        proof {
            assert(children@.drop_last() =~= ch_prev1);
            gc = gc.push(Tag::<1, OctetString>::spec_to_value(self.checksum.deep_view()));
            assert(crate::der::view_list(children@) == gc);
            assert(checksum_write_1(v) == seq![Tag::<1, OctetString>::spec_to_value(self.checksum.deep_view())] + checksum_write_2(v));
            lemma_snoc_concat(gc_prev1, Tag::<1, OctetString>::spec_to_value(self.checksum.deep_view()), checksum_write_2(v));
            assert(checksum_write_0(v) == gc + checksum_write_2(v));
        }
        proof {
            assert(checksum_write_2(v) == Seq::<AsnValue>::empty());
            lemma_concat_nil(gc);
            assert(AsnValue::Sequence(gc) == Self::spec_to_value(v));
        }
        Asn1Value::Sequence(children)
    }

    fn from_value(a: &Asn1Value) -> (r: Result<Self, KerlabError>) {
        match a {
            Asn1Value::Sequence(cs) => {
                proof {
                    crate::der::lemma_view_list(cs@);
                }
                let ghost vl = crate::der::view_list(cs@);
                proof {
                    assert(vl.skip(0) =~= vl);
                    assert(Self::spec_from_value(a@) == checksum_read_0(vl.skip(0)));
                }
                let n = cs.len();
                let mut i: usize = 0;
                if i >= n {
                    proof {
                        assert(vl.skip(i as int).len() == 0);
                    }
                    return Err(KerlabError::new(KerlabErrorKind::Parsing, "missing field"));
                }
                proof {
                    assert(vl.skip(i as int)[0] == vl[i as int]);
                    assert(vl[i as int] == cs@[i as int]@);
                }
                let f_cksumtype = match Tag::<0, SInteger>::from_value(&cs[i]) {
                    Ok(x) => x,
                    Err(e) => {
                        return Err(e);
                    },
                };
                proof {
                    lemma_skip_skip(vl, i as int);
                }
                i += 1;
                proof {
                    assert(Self::spec_from_value(a@) == checksum_read_1(vl.skip(i as int), f_cksumtype.deep_view()));
                }
                if i >= n {
                    proof {
                        assert(vl.skip(i as int).len() == 0);
                    }
                    return Err(KerlabError::new(KerlabErrorKind::Parsing, "missing field"));
                }
                proof {
                    assert(vl.skip(i as int)[0] == vl[i as int]);
                    assert(vl[i as int] == cs@[i as int]@);
                }
                let f_checksum = match Tag::<1, OctetString>::from_value(&cs[i]) {
                    Ok(x) => x,
                    Err(e) => {
                        return Err(e);
                    },
                };
                proof {
                    lemma_skip_skip(vl, i as int);
                }
                i += 1;
                proof {
                    assert(Self::spec_from_value(a@) == checksum_read_2(vl.skip(i as int), f_cksumtype.deep_view(), f_checksum.deep_view()));
                }
                if i != n {
                    return Err(KerlabError::new(KerlabErrorKind::Parsing, "unexpected extra field"));
                }
                proof {
                    assert(vl.skip(i as int).len() == 0);
                }
                Ok(Checksum {
                    cksumtype: f_cksumtype,
                    checksum: f_checksum,
                })
            },
            _ => Err(KerlabError::new(KerlabErrorKind::Parsing, "expected a sequence")),
        }
    }

    proof fn lemma_round_trip(v: ChecksumView) {
        checksum_rt_0(v);
        assert(Self::spec_from_value(Self::spec_to_value(v)) == Some(v));
    }
}

/// Reading no children past the last field yields the view back.
proof fn checksum_rt_2(v: ChecksumView)
    requires
        Checksum::view_wf(v),
    ensures
        checksum_read_2(checksum_write_2(v), v.cksumtype, v.checksum) == Some(v),
        forall|j: int| 0 <= j < checksum_write_2(v).len() ==> value_wf(#[trigger] checksum_write_2(v)[j]),
{
    assert(checksum_write_2(v).len() == 0);
    assert((ChecksumView { cksumtype: v.cksumtype, checksum: v.checksum }) =~= v);
}

/// Reading the children written from field 1 on yields the view back.
proof fn checksum_rt_1(v: ChecksumView)
    requires
        Checksum::view_wf(v),
    ensures
        checksum_read_1(checksum_write_1(v), v.cksumtype) == Some(v),
        forall|j: int| 0 <= j < checksum_write_1(v).len() ==> value_wf(#[trigger] checksum_write_1(v)[j]),
{
    checksum_rt_2(v);
    Tag::<1, OctetString>::lemma_round_trip(v.checksum);
    assert(checksum_write_1(v) == seq![Tag::<1, OctetString>::spec_to_value(v.checksum)] + checksum_write_2(v));
    assert(checksum_write_1(v)[0] == Tag::<1, OctetString>::spec_to_value(v.checksum));
    assert(has_ctx(checksum_write_1(v)[0], 1));
    lemma_cons_skip(Tag::<1, OctetString>::spec_to_value(v.checksum), checksum_write_2(v));
    assert(checksum_read_1(checksum_write_1(v), v.cksumtype) == checksum_read_2(checksum_write_2(v), v.cksumtype, v.checksum));
    assert forall|j: int| 0 <= j < checksum_write_1(v).len() implies value_wf(#[trigger] checksum_write_1(v)[j]) by {
        if j >= 1 {
            assert(checksum_write_1(v)[j] == checksum_write_2(v)[j - 1]);
        }
    }
}

/// Reading the children written from field 0 on yields the view back.
proof fn checksum_rt_0(v: ChecksumView)
    requires
        Checksum::view_wf(v),
    ensures
        checksum_read_0(checksum_write_0(v)) == Some(v),
        forall|j: int| 0 <= j < checksum_write_0(v).len() ==> value_wf(#[trigger] checksum_write_0(v)[j]),
{
    checksum_rt_1(v);
    Tag::<0, SInteger>::lemma_round_trip(v.cksumtype);
    assert(checksum_write_0(v) == seq![Tag::<0, SInteger>::spec_to_value(v.cksumtype)] + checksum_write_1(v));
    assert(checksum_write_0(v)[0] == Tag::<0, SInteger>::spec_to_value(v.cksumtype));
    assert(has_ctx(checksum_write_0(v)[0], 0));
    lemma_cons_skip(Tag::<0, SInteger>::spec_to_value(v.cksumtype), checksum_write_1(v));
    assert(checksum_read_0(checksum_write_0(v)) == checksum_read_1(checksum_write_1(v), v.cksumtype));
    assert forall|j: int| 0 <= j < checksum_write_0(v).len() implies value_wf(#[trigger] checksum_write_0(v)[j]) by {
        if j >= 1 {
            assert(checksum_write_0(v)[j] == checksum_write_1(v)[j - 1]);
        }
    }
}

/// What MD5 returns: a pure function of the data.
pub uninterp spec fn md5_of(data: Seq<u8>) -> Seq<u8>;

/// Relies on `md5::Md5`: the digest is a function of the data alone,
/// 16 bytes long.
#[verifier::external_body]
fn md5_digest(data: &[u8]) -> (r: Vec<u8>)
    ensures
        r@ == md5_of(data@),
        r@.len() == 16,
{
    <md5::Md5 as md5::Digest>::digest(data).to_vec()
}

/// Compute the MD5 digest of a buffer.
pub fn md5(data: &[u8]) -> (r: Vec<u8>)
    ensures
        r@ == md5_of(data@),
        r@.len() == 16,
{
    md5_digest(data)
}

/// The bytes of the string `signaturekey` followed by a NUL, the fixed
/// salt of the RFC 4757 checksum key.
pub open spec fn signature_key_salt() -> Seq<u8> {
    seq![115u8, 105u8, 103u8, 110u8, 97u8, 116u8, 117u8, 114u8, 101u8, 107u8, 101u8, 121u8, 0u8]
}

/// The Kerberos HMAC-MD5 checksum of RFC 4757: a key derived with the
/// `signaturekey` salt, applied over the MD5 of the usage and the text.
pub open spec fn spec_kerberos_hmac_md5(key: Seq<u8>, key_usage: i32, plaintext: Seq<u8>) -> Seq<
    u8,
> {
    let ksign = crate::rc4hmac::hmac16(key, signature_key_salt());
    let tmp = md5_of(crate::rc4hmac::le32(key_usage as u32) + plaintext);
    crate::rc4hmac::hmac16(ksign, tmp)
}

/// Compute the Kerberos HMAC-MD5 checksum (RFC 4757): deterministic for
/// fixed key, usage and text.
pub fn kerberos_hmac_md5(key: &[u8], key_usage: i32, plaintext: &[u8]) -> (r: Vec<u8>)
    ensures
        r@ == spec_kerberos_hmac_md5(key@, key_usage, plaintext@),
        r@.len() == 16,
{
    let mut keyword: Vec<u8> = Vec::new();
    keyword.push(115);
    keyword.push(105);
    keyword.push(103);
    keyword.push(110);
    keyword.push(97);
    keyword.push(116);
    keyword.push(117);
    keyword.push(114);
    keyword.push(101);
    keyword.push(107);
    keyword.push(101);
    keyword.push(121);
    keyword.push(0);
    assert(keyword@ =~= signature_key_salt());
    let ksign = crate::rc4hmac::hmac_md5(key, keyword.as_slice());
    let mut bs = crate::rc4hmac::le32_bytes(#[verifier::truncate] (key_usage as u32));
    bs.extend_from_slice(plaintext);
    assert(bs@ =~= crate::rc4hmac::le32(key_usage as u32) + plaintext@);
    let tmp = md5_digest(bs.as_slice());
    crate::rc4hmac::hmac_md5(ksign.as_slice(), tmp.as_slice())
}

impl Checksum {
    /// Build a checksum from its type and bytes.
    pub fn new(cksumtype: SInteger, checksum: OctetString) -> (r: Self)
        ensures
            r.deep_view() == (ChecksumView { cksumtype, checksum: checksum.deep_view() }),
    {
        Checksum { cksumtype: Tag::new(cksumtype), checksum: Tag::new(checksum) }
    }
}

} // verus!
