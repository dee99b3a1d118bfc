//! Pre-authentication data: the PA-DATA container, the encrypted
//! timestamp of PA-ENC-TIMESTAMP, and the S4U PA-FOR-USER body.

use vstd::prelude::*;

verus! {

use crate::asn1::{
    Asn1Data, lemma_concat_nil, lemma_cons_skip, lemma_nil_concat, lemma_skip_skip, lemma_snoc_concat, BitStringView, GeneralString, Integer, OctetString, SequenceOf, SInteger, Tag,
    has_ctx, is_ctx,
};
use crate::base::{KerberosTime, Realm};
use crate::clock::now_utc;
use crate::checksum::spec_kerberos_hmac_md5;
use crate::checksum::kerberos_hmac_md5;
use crate::encryption::{EncryptionKey, KeyUsage};
use crate::error::KerlabResult;
use crate::rc4hmac::le32;
use crate::der::{AsnValue, Asn1Value, GeneralizedTime, value_wf};
use crate::error::{KerlabError, KerlabErrorKind};

use crate::base::PrincipalName;
use crate::base::PrincipalNameView;
use crate::checksum::{Checksum, ChecksumView};

/// One pre-authentication entry (`padata-type[1] INTEGER, padata-value[2] OCTET STRING`).
#[derive(Debug, Clone, PartialEq, Default)]
pub struct PaData {
    pub padata_type: Tag<1, Integer>,
    pub padata_value: Tag<2, OctetString>,
}

/// The deep view of [`PaData`].
#[verifier::ext_equal]
pub struct PaDataView {
    pub padata_type: u32,
    pub padata_value: Seq<u8>,
}

impl DeepView for PaData {
    type V = PaDataView;

    open spec fn deep_view(&self) -> PaDataView {
        PaDataView {
            padata_type: self.padata_type.deep_view(),
            padata_value: self.padata_value.deep_view(),
        }
    }
}

/// The children a [`PaData`] writes from its field 0 on.
pub open spec fn pa_data_write_0(v: PaDataView) -> Seq<AsnValue> {
    seq![Tag::<1, Integer>::spec_to_value(v.padata_type)] + pa_data_write_1(v)
}

/// The children a [`PaData`] writes from its field 1 on.
pub open spec fn pa_data_write_1(v: PaDataView) -> Seq<AsnValue> {
    seq![Tag::<2, OctetString>::spec_to_value(v.padata_value)] + pa_data_write_2(v)
}

/// The children a [`PaData`] writes past its last field: none.
pub open spec fn pa_data_write_2(v: PaDataView) -> Seq<AsnValue> {
    Seq::empty()
}

/// Read the fields of a [`PaData`] from field 0 on.
pub open spec fn pa_data_read_0(cs: Seq<AsnValue>) -> Option<PaDataView> {
    if cs.len() > 0 {
        match Tag::<1, Integer>::spec_from_value(cs[0]) {
            Some(f) => pa_data_read_1(cs.skip(1), f),
            None => None,
        }
    } else {
        None
    }
}

/// Read the fields of a [`PaData`] from field 1 on.
pub open spec fn pa_data_read_1(cs: Seq<AsnValue>, f_padata_type: u32) -> Option<PaDataView> {
    if cs.len() > 0 {
        match Tag::<2, OctetString>::spec_from_value(cs[0]) {
            Some(f) => pa_data_read_2(cs.skip(1), f_padata_type, f),
            None => None,
        }
    } else {
        None
    }
}

/// Past the last field of a [`PaData`]: the children must be spent.
pub open spec fn pa_data_read_2(cs: Seq<AsnValue>, f_padata_type: u32, f_padata_value: Seq<u8>) -> Option<PaDataView> {
    if cs.len() == 0 {
        Some(PaDataView {
            padata_type: f_padata_type,
            padata_value: f_padata_value,
        })
    } else {
        None
    }
}

impl Asn1Data for PaData {
    open spec fn view_wf(v: PaDataView) -> bool {
        Tag::<1, Integer>::view_wf(v.padata_type)
            && Tag::<2, OctetString>::view_wf(v.padata_value)
    }

    open spec fn spec_to_value(v: PaDataView) -> AsnValue {
        AsnValue::Sequence(pa_data_write_0(v))
    }

    open spec fn spec_from_value(a: AsnValue) -> Option<PaDataView> {
        match a {
            AsnValue::Sequence(cs) => pa_data_read_0(cs),
            _ => None,
        }
    }

    fn to_value(&self) -> (r: Asn1Value) {
        let ghost v = self.deep_view();
        let mut children: Vec<Asn1Value> = Vec::new();
        let ghost mut gc: Seq<AsnValue> = Seq::empty();
        proof {
            assert(crate::der::view_list(children@) =~= gc);
            lemma_nil_concat(pa_data_write_0(v));
            assert(pa_data_write_0(v) == gc + pa_data_write_0(v));
        }
        let ghost ch_prev0 = children@;
        let ghost gc_prev0 = gc;
        children.push(self.padata_type.to_value());
        proof {
            assert(children@.drop_last() =~= ch_prev0);
            gc = gc.push(Tag::<1, Integer>::spec_to_value(self.padata_type.deep_view()));
            assert(crate::der::view_list(children@) == gc);
            assert(pa_data_write_0(v) == seq![Tag::<1, Integer>::spec_to_value(self.padata_type.deep_view())] + pa_data_write_1(v));
            lemma_snoc_concat(gc_prev0, Tag::<1, Integer>::spec_to_value(self.padata_type.deep_view()), pa_data_write_1(v));
            assert(pa_data_write_0(v) == gc + pa_data_write_1(v));
        }
        let ghost ch_prev1 = children@;
        let ghost gc_prev1 = gc;
        children.push(self.padata_value.to_value());
        proof {
            assert(children@.drop_last() =~= ch_prev1);
            gc = gc.push(Tag::<2, OctetString>::spec_to_value(self.padata_value.deep_view()));
            assert(crate::der::view_list(children@) == gc);
            assert(pa_data_write_1(v) == seq![Tag::<2, OctetString>::spec_to_value(self.padata_value.deep_view())] + pa_data_write_2(v));
            lemma_snoc_concat(gc_prev1, Tag::<2, OctetString>::spec_to_value(self.padata_value.deep_view()), pa_data_write_2(v));
            assert(pa_data_write_0(v) == gc + pa_data_write_2(v));
        }
        proof {
            assert(pa_data_write_2(v) == Seq::<AsnValue>::empty());
            lemma_concat_nil(gc);
            assert(AsnValue::Sequence(gc) == Self::spec_to_value(v));
        }
        Asn1Value::Sequence(children)
    }

    fn from_value(a: &Asn1Value) -> (r: Result<Self, KerlabError>) {
        match a {
            Asn1Value::Sequence(cs) => {
                proof {
                    crate::der::lemma_view_list(cs@);
                }
                let ghost vl = crate::der::view_list(cs@);
                proof {
                    assert(vl.skip(0) =~= vl);
                    assert(Self::spec_from_value(a@) == pa_data_read_0(vl.skip(0)));
                }
                let n = cs.len();
                let mut i: usize = 0;
                if i >= n {
                    proof {
                        assert(vl.skip(i as int).len() == 0);
                    }
                    return Err(KerlabError::new(KerlabErrorKind::Parsing, "missing field"));
                }
                proof {
                    assert(vl.skip(i as int)[0] == vl[i as int]);
                    assert(vl[i as int] == cs@[i as int]@);
                }
                let f_padata_type = match Tag::<1, Integer>::from_value(&cs[i]) {
                    Ok(x) => x,
                    Err(e) => {
                        return Err(e);
                    },
                };
                proof {
                    lemma_skip_skip(vl, i as int);
                }
                i += 1;
                proof {
                    assert(Self::spec_from_value(a@) == pa_data_read_1(vl.skip(i as int), f_padata_type.deep_view()));
                }
                if i >= n {
                    proof {
                        assert(vl.skip(i as int).len() == 0);
                    }
                    return Err(KerlabError::new(KerlabErrorKind::Parsing, "missing field"));
                }
                proof {
                    assert(vl.skip(i as int)[0] == vl[i as int]);
                    assert(vl[i as int] == cs@[i as int]@);
                }
                let f_padata_value = match Tag::<2, OctetString>::from_value(&cs[i]) {
                    Ok(x) => x,
                    Err(e) => {
                        return Err(e);
                    },
                };
                proof {
                    lemma_skip_skip(vl, i as int);
                }
                i += 1;
                proof {
                    assert(Self::spec_from_value(a@) == pa_data_read_2(vl.skip(i as int), f_padata_type.deep_view(), f_padata_value.deep_view()));
                }
                if i != n {
                    return Err(KerlabError::new(KerlabErrorKind::Parsing, "unexpected extra field"));
                }
                proof {
                    assert(vl.skip(i as int).len() == 0);
                }
                Ok(PaData {
                    padata_type: f_padata_type,
                    padata_value: f_padata_value,
                })
            },
            _ => Err(KerlabError::new(KerlabErrorKind::Parsing, "expected a sequence")),
        }
    }

    proof fn lemma_round_trip(v: PaDataView) {
        pa_data_rt_0(v);
        assert(Self::spec_from_value(Self::spec_to_value(v)) == Some(v));
    }
}

/// Reading no children past the last field yields the view back.
proof fn pa_data_rt_2(v: PaDataView)
    requires
        PaData::view_wf(v),
    ensures
        pa_data_read_2(pa_data_write_2(v), v.padata_type, v.padata_value) == Some(v),
        forall|j: int| 0 <= j < pa_data_write_2(v).len() ==> value_wf(#[trigger] pa_data_write_2(v)[j]),
{
    assert(pa_data_write_2(v).len() == 0);
    assert((PaDataView { padata_type: v.padata_type, padata_value: v.padata_value }) =~= v);
}

/// Reading the children written from field 1 on yields the view back.
proof fn pa_data_rt_1(v: PaDataView)
    requires
        PaData::view_wf(v),
    ensures
        pa_data_read_1(pa_data_write_1(v), v.padata_type) == Some(v),
        forall|j: int| 0 <= j < pa_data_write_1(v).len() ==> value_wf(#[trigger] pa_data_write_1(v)[j]),
{
    pa_data_rt_2(v);
    Tag::<2, OctetString>::lemma_round_trip(v.padata_value);
    assert(pa_data_write_1(v) == seq![Tag::<2, OctetString>::spec_to_value(v.padata_value)] + pa_data_write_2(v));
    assert(pa_data_write_1(v)[0] == Tag::<2, OctetString>::spec_to_value(v.padata_value));
    assert(has_ctx(pa_data_write_1(v)[0], 2));
    lemma_cons_skip(Tag::<2, OctetString>::spec_to_value(v.padata_value), pa_data_write_2(v));
    assert(pa_data_read_1(pa_data_write_1(v), v.padata_type) == pa_data_read_2(pa_data_write_2(v), v.padata_type, v.padata_value));
    assert forall|j: int| 0 <= j < pa_data_write_1(v).len() implies value_wf(#[trigger] pa_data_write_1(v)[j]) by {
        if j >= 1 {
            assert(pa_data_write_1(v)[j] == pa_data_write_2(v)[j - 1]);
        }
    }
}

/// Reading the children written from field 0 on yields the view back.
proof fn pa_data_rt_0(v: PaDataView)
    requires
        PaData::view_wf(v),
    ensures
        pa_data_read_0(pa_data_write_0(v)) == Some(v),
        forall|j: int| 0 <= j < pa_data_write_0(v).len() ==> value_wf(#[trigger] pa_data_write_0(v)[j]),
{
    pa_data_rt_1(v);
    Tag::<1, Integer>::lemma_round_trip(v.padata_type);
    assert(pa_data_write_0(v) == seq![Tag::<1, Integer>::spec_to_value(v.padata_type)] + pa_data_write_1(v));
    assert(pa_data_write_0(v)[0] == Tag::<1, Integer>::spec_to_value(v.padata_type));
    assert(has_ctx(pa_data_write_0(v)[0], 1));
    lemma_cons_skip(Tag::<1, Integer>::spec_to_value(v.padata_type), pa_data_write_1(v));
    assert(pa_data_read_0(pa_data_write_0(v)) == pa_data_read_1(pa_data_write_1(v), v.padata_type));
    assert forall|j: int| 0 <= j < pa_data_write_0(v).len() implies value_wf(#[trigger] pa_data_write_0(v)[j]) by {
        if j >= 1 {
            assert(pa_data_write_0(v)[j] == pa_data_write_1(v)[j - 1]);
        }
    }
}

/// The encrypted-timestamp plaintext (`patimestamp[0] KerberosTime, pausec[1] INTEGER OPTIONAL`).
#[derive(Debug, Clone, PartialEq, Default)]
pub struct PaEncTsEnc {
    pub patimestamp: Tag<0, KerberosTime>,
    pub pausec: Option<Tag<1, Integer>>,
}

/// The deep view of [`PaEncTsEnc`].
#[verifier::ext_equal]
pub struct PaEncTsEncView {
    pub patimestamp: GeneralizedTime,
    pub pausec: Option<u32>,
}

impl DeepView for PaEncTsEnc {
    type V = PaEncTsEncView;

    open spec fn deep_view(&self) -> PaEncTsEncView {
        PaEncTsEncView {
            patimestamp: self.patimestamp.deep_view(),
            pausec: self.pausec.deep_view(),
        }
    }
}

/// The children a [`PaEncTsEnc`] writes from its field 0 on.
pub open spec fn pa_enc_ts_enc_write_0(v: PaEncTsEncView) -> Seq<AsnValue> {
    seq![Tag::<0, KerberosTime>::spec_to_value(v.patimestamp)] + pa_enc_ts_enc_write_1(v)
}

/// The children a [`PaEncTsEnc`] writes from its field 1 on.
pub open spec fn pa_enc_ts_enc_write_1(v: PaEncTsEncView) -> Seq<AsnValue> {
    match v.pausec {
        Some(x) => seq![Tag::<1, Integer>::spec_to_value(x)] + pa_enc_ts_enc_write_2(v),
        None => pa_enc_ts_enc_write_2(v),
    }
}

/// The children a [`PaEncTsEnc`] writes past its last field: none.
pub open spec fn pa_enc_ts_enc_write_2(v: PaEncTsEncView) -> Seq<AsnValue> {
    Seq::empty()
}

/// Read the fields of a [`PaEncTsEnc`] from field 0 on.
pub open spec fn pa_enc_ts_enc_read_0(cs: Seq<AsnValue>) -> Option<PaEncTsEncView> {
    if cs.len() > 0 {
        match Tag::<0, KerberosTime>::spec_from_value(cs[0]) {
            Some(f) => pa_enc_ts_enc_read_1(cs.skip(1), f),
            None => None,
        }
    } else {
        None
    }
}

/// Read the fields of a [`PaEncTsEnc`] from field 1 on.
pub open spec fn pa_enc_ts_enc_read_1(cs: Seq<AsnValue>, f_patimestamp: GeneralizedTime) -> Option<PaEncTsEncView> {
    if cs.len() > 0 && has_ctx(cs[0], 1) {
        match Tag::<1, Integer>::spec_from_value(cs[0]) {
            Some(f) => pa_enc_ts_enc_read_2(cs.skip(1), f_patimestamp, Some(f)),
            None => None,
        }
    } else {
        pa_enc_ts_enc_read_2(cs, f_patimestamp, None::<u32>)
    }
}

/// Past the last field of a [`PaEncTsEnc`]: the children must be spent.
pub open spec fn pa_enc_ts_enc_read_2(cs: Seq<AsnValue>, f_patimestamp: GeneralizedTime, f_pausec: Option<u32>) -> Option<PaEncTsEncView> {
    if cs.len() == 0 {
        Some(PaEncTsEncView {
            patimestamp: f_patimestamp,
            pausec: f_pausec,
        })
    } else {
        None
    }
}

impl Asn1Data for PaEncTsEnc {
    open spec fn view_wf(v: PaEncTsEncView) -> bool {
        Tag::<0, KerberosTime>::view_wf(v.patimestamp)
            && (match v.pausec {
            Some(x) => Tag::<1, Integer>::view_wf(x),
            None => true,
        })
    }

    open spec fn spec_to_value(v: PaEncTsEncView) -> AsnValue {
        AsnValue::Sequence(pa_enc_ts_enc_write_0(v))
    }

    open spec fn spec_from_value(a: AsnValue) -> Option<PaEncTsEncView> {
        match a {
            AsnValue::Sequence(cs) => pa_enc_ts_enc_read_0(cs),
            _ => None,
        }
    }

    fn to_value(&self) -> (r: Asn1Value) {
        let ghost v = self.deep_view();
        let mut children: Vec<Asn1Value> = Vec::new();
        let ghost mut gc: Seq<AsnValue> = Seq::empty();
        proof {
            assert(crate::der::view_list(children@) =~= gc);
            lemma_nil_concat(pa_enc_ts_enc_write_0(v));
            assert(pa_enc_ts_enc_write_0(v) == gc + pa_enc_ts_enc_write_0(v));
        }
        let ghost ch_prev0 = children@;
        let ghost gc_prev0 = gc;
        children.push(self.patimestamp.to_value());
        proof {
            assert(children@.drop_last() =~= ch_prev0);
            gc = gc.push(Tag::<0, KerberosTime>::spec_to_value(self.patimestamp.deep_view()));
            assert(crate::der::view_list(children@) == gc);
            assert(pa_enc_ts_enc_write_0(v) == seq![Tag::<0, KerberosTime>::spec_to_value(self.patimestamp.deep_view())] + pa_enc_ts_enc_write_1(v));
            lemma_snoc_concat(gc_prev0, Tag::<0, KerberosTime>::spec_to_value(self.patimestamp.deep_view()), pa_enc_ts_enc_write_1(v));
            assert(pa_enc_ts_enc_write_0(v) == gc + pa_enc_ts_enc_write_1(v));
        }
        match &self.pausec {
            Some(x) => {
                let ghost ch_prev = children@;
                let ghost gc_prev = gc;
                children.push(x.to_value());
                proof {
                    assert(children@.drop_last() =~= ch_prev);
                    gc = gc.push(Tag::<1, Integer>::spec_to_value(x.deep_view()));
                    assert(crate::der::view_list(children@) == gc);
                    assert(pa_enc_ts_enc_write_1(v) == seq![Tag::<1, Integer>::spec_to_value(x.deep_view())] + pa_enc_ts_enc_write_2(v));
                    lemma_snoc_concat(gc_prev, Tag::<1, Integer>::spec_to_value(x.deep_view()), pa_enc_ts_enc_write_2(v));
                    assert(pa_enc_ts_enc_write_0(v) == gc + pa_enc_ts_enc_write_2(v));
                }
            },
            None => {
                proof {
                    assert(pa_enc_ts_enc_write_1(v) == pa_enc_ts_enc_write_2(v));
                    assert(pa_enc_ts_enc_write_0(v) == gc + pa_enc_ts_enc_write_2(v));
                }
            },
        }
        proof {
            assert(pa_enc_ts_enc_write_2(v) == Seq::<AsnValue>::empty());
            lemma_concat_nil(gc);
            assert(AsnValue::Sequence(gc) == Self::spec_to_value(v));
        }
        Asn1Value::Sequence(children)
    }

    fn from_value(a: &Asn1Value) -> (r: Result<Self, KerlabError>) {
        match a {
            Asn1Value::Sequence(cs) => {
                proof {
                    crate::der::lemma_view_list(cs@);
                }
                let ghost vl = crate::der::view_list(cs@);
                proof {
                    assert(vl.skip(0) =~= vl);
                    assert(Self::spec_from_value(a@) == pa_enc_ts_enc_read_0(vl.skip(0)));
                }
                let n = cs.len();
                let mut i: usize = 0;
                if i >= n {
                    proof {
                        assert(vl.skip(i as int).len() == 0);
                    }
                    return Err(KerlabError::new(KerlabErrorKind::Parsing, "missing field"));
                }
                proof {
                    assert(vl.skip(i as int)[0] == vl[i as int]);
                    assert(vl[i as int] == cs@[i as int]@);
                }
                let f_patimestamp = match Tag::<0, KerberosTime>::from_value(&cs[i]) {
                    Ok(x) => x,
                    Err(e) => {
                        return Err(e);
                    },
                };
                proof {
                    lemma_skip_skip(vl, i as int);
                }
                i += 1;
                proof {
                    assert(Self::spec_from_value(a@) == pa_enc_ts_enc_read_1(vl.skip(i as int), f_patimestamp.deep_view()));
                }
                let mut f_pausec: Option<Tag<1, Integer>> = None;
                if i < n && is_ctx(&cs[i], 1) {
                    proof {
                        assert(vl.skip(i as int)[0] == vl[i as int]);
                        assert(vl[i as int] == cs@[i as int]@);
                    }
                    match Tag::<1, Integer>::from_value(&cs[i]) {
                        Ok(x) => {
                            proof {
                                lemma_skip_skip(vl, i as int);
                            }
                            f_pausec = Some(x);
                            i += 1;
                        },
                        Err(e) => {
                            return Err(e);
                        },
                    }
                } else {
                    proof {
                        if i < n {
                            assert(vl.skip(i as int)[0] == vl[i as int]);
                            assert(vl[i as int] == cs@[i as int]@);
                        }
                    }
                }
                proof {
                    assert(Self::spec_from_value(a@) == pa_enc_ts_enc_read_2(vl.skip(i as int), f_patimestamp.deep_view(), f_pausec.deep_view()));
                }
                if i != n {
                    return Err(KerlabError::new(KerlabErrorKind::Parsing, "unexpected extra field"));
                }
                proof {
                    assert(vl.skip(i as int).len() == 0);
                }
                Ok(PaEncTsEnc {
                    patimestamp: f_patimestamp,
                    pausec: f_pausec,
                })
            },
            _ => Err(KerlabError::new(KerlabErrorKind::Parsing, "expected a sequence")),
        }
    }

    proof fn lemma_round_trip(v: PaEncTsEncView) {
        pa_enc_ts_enc_rt_0(v);
        assert(Self::spec_from_value(Self::spec_to_value(v)) == Some(v));
    }
}

/// Reading no children past the last field yields the view back.
proof fn pa_enc_ts_enc_rt_2(v: PaEncTsEncView)
    requires
        PaEncTsEnc::view_wf(v),
    ensures
        pa_enc_ts_enc_read_2(pa_enc_ts_enc_write_2(v), v.patimestamp, v.pausec) == Some(v),
        forall|j: int| 0 <= j < pa_enc_ts_enc_write_2(v).len() ==> value_wf(#[trigger] pa_enc_ts_enc_write_2(v)[j]),
{
    assert(pa_enc_ts_enc_write_2(v).len() == 0);
    assert((PaEncTsEncView { patimestamp: v.patimestamp, pausec: v.pausec }) =~= v);
}

/// Reading the children written from field 1 on yields the view back.
proof fn pa_enc_ts_enc_rt_1(v: PaEncTsEncView)
    requires
        PaEncTsEnc::view_wf(v),
    ensures
        pa_enc_ts_enc_read_1(pa_enc_ts_enc_write_1(v), v.patimestamp) == Some(v),
        forall|j: int| 0 <= j < pa_enc_ts_enc_write_1(v).len() ==> value_wf(#[trigger] pa_enc_ts_enc_write_1(v)[j]),
{
    pa_enc_ts_enc_rt_2(v);
    match v.pausec {
        Some(x) => {
            Tag::<1, Integer>::lemma_round_trip(x);
            assert(pa_enc_ts_enc_write_1(v) == seq![Tag::<1, Integer>::spec_to_value(x)] + pa_enc_ts_enc_write_2(v));
            assert(pa_enc_ts_enc_write_1(v)[0] == Tag::<1, Integer>::spec_to_value(x));
            assert(has_ctx(pa_enc_ts_enc_write_1(v)[0], 1));
            lemma_cons_skip(Tag::<1, Integer>::spec_to_value(x), pa_enc_ts_enc_write_2(v));
            assert(pa_enc_ts_enc_read_1(pa_enc_ts_enc_write_1(v), v.patimestamp) == pa_enc_ts_enc_read_2(pa_enc_ts_enc_write_2(v), v.patimestamp, Some(x)));
            assert forall|j: int| 0 <= j < pa_enc_ts_enc_write_1(v).len() implies value_wf(#[trigger] pa_enc_ts_enc_write_1(v)[j]) by {
                if j >= 1 {
                    assert(pa_enc_ts_enc_write_1(v)[j] == pa_enc_ts_enc_write_2(v)[j - 1]);
                }
            }
        },
        None => {
            assert(pa_enc_ts_enc_write_1(v) == pa_enc_ts_enc_write_2(v));
            if pa_enc_ts_enc_write_2(v).len() > 0 {
                assert(!has_ctx(pa_enc_ts_enc_write_2(v)[0], 1));
            }
            assert(pa_enc_ts_enc_read_1(pa_enc_ts_enc_write_1(v), v.patimestamp) == pa_enc_ts_enc_read_2(pa_enc_ts_enc_write_2(v), v.patimestamp, None::<u32>));
        },
    }
}

/// Reading the children written from field 0 on yields the view back.
proof fn pa_enc_ts_enc_rt_0(v: PaEncTsEncView)
    requires
        PaEncTsEnc::view_wf(v),
    ensures
        pa_enc_ts_enc_read_0(pa_enc_ts_enc_write_0(v)) == Some(v),
        forall|j: int| 0 <= j < pa_enc_ts_enc_write_0(v).len() ==> value_wf(#[trigger] pa_enc_ts_enc_write_0(v)[j]),
{
    pa_enc_ts_enc_rt_1(v);
    Tag::<0, KerberosTime>::lemma_round_trip(v.patimestamp);
    assert(pa_enc_ts_enc_write_0(v) == seq![Tag::<0, KerberosTime>::spec_to_value(v.patimestamp)] + pa_enc_ts_enc_write_1(v));
    assert(pa_enc_ts_enc_write_0(v)[0] == Tag::<0, KerberosTime>::spec_to_value(v.patimestamp));
    assert(has_ctx(pa_enc_ts_enc_write_0(v)[0], 0));
    lemma_cons_skip(Tag::<0, KerberosTime>::spec_to_value(v.patimestamp), pa_enc_ts_enc_write_1(v));
    assert(pa_enc_ts_enc_read_0(pa_enc_ts_enc_write_0(v)) == pa_enc_ts_enc_read_1(pa_enc_ts_enc_write_1(v), v.patimestamp));
    assert forall|j: int| 0 <= j < pa_enc_ts_enc_write_0(v).len() implies value_wf(#[trigger] pa_enc_ts_enc_write_0(v)[j]) by {
        if j >= 1 {
            assert(pa_enc_ts_enc_write_0(v)[j] == pa_enc_ts_enc_write_1(v)[j - 1]);
        }
    }
}

/// The S4U2self body (`userName[0] PrincipalName, userRealm[1] Realm, cksum[2] Checksum, auth-package[3] KerberosString`).
#[derive(Debug, Clone, PartialEq, Default)]
pub struct PaForUser {
    pub user_name: Tag<0, PrincipalName>,
    pub user_realm: Tag<1, Realm>,
    pub cksum: Tag<2, Checksum>,
    pub auth_package: Tag<3, GeneralString>,
}

/// The deep view of [`PaForUser`].
#[verifier::ext_equal]
pub struct PaForUserView {
    pub user_name: PrincipalNameView,
    pub user_realm: Seq<u8>,
    pub cksum: ChecksumView,
    pub auth_package: Seq<u8>,
}

impl DeepView for PaForUser {
    type V = PaForUserView;

    open spec fn deep_view(&self) -> PaForUserView {
        PaForUserView {
            user_name: self.user_name.deep_view(),
            user_realm: self.user_realm.deep_view(),
            cksum: self.cksum.deep_view(),
            auth_package: self.auth_package.deep_view(),
        }
    }
}

/// The children a [`PaForUser`] writes from its field 0 on.
pub open spec fn pa_for_user_write_0(v: PaForUserView) -> Seq<AsnValue> {
    seq![Tag::<0, PrincipalName>::spec_to_value(v.user_name)] + pa_for_user_write_1(v)
}

/// The children a [`PaForUser`] writes from its field 1 on.
pub open spec fn pa_for_user_write_1(v: PaForUserView) -> Seq<AsnValue> {
    seq![Tag::<1, Realm>::spec_to_value(v.user_realm)] + pa_for_user_write_2(v)
}

/// The children a [`PaForUser`] writes from its field 2 on.
pub open spec fn pa_for_user_write_2(v: PaForUserView) -> Seq<AsnValue> {
    seq![Tag::<2, Checksum>::spec_to_value(v.cksum)] + pa_for_user_write_3(v)
}

/// The children a [`PaForUser`] writes from its field 3 on.
pub open spec fn pa_for_user_write_3(v: PaForUserView) -> Seq<AsnValue> {
    seq![Tag::<3, GeneralString>::spec_to_value(v.auth_package)] + pa_for_user_write_4(v)
}

/// The children a [`PaForUser`] writes past its last field: none.
pub open spec fn pa_for_user_write_4(v: PaForUserView) -> Seq<AsnValue> {
    Seq::empty()
}

/// Read the fields of a [`PaForUser`] from field 0 on.
pub open spec fn pa_for_user_read_0(cs: Seq<AsnValue>) -> Option<PaForUserView> {
    if cs.len() > 0 {
        match Tag::<0, PrincipalName>::spec_from_value(cs[0]) {
            Some(f) => pa_for_user_read_1(cs.skip(1), f),
            None => None,
        }
    } else {
        None
    }
}

/// Read the fields of a [`PaForUser`] from field 1 on.
pub open spec fn pa_for_user_read_1(cs: Seq<AsnValue>, f_user_name: PrincipalNameView) -> Option<PaForUserView> {
    if cs.len() > 0 {
        match Tag::<1, Realm>::spec_from_value(cs[0]) {
            Some(f) => pa_for_user_read_2(cs.skip(1), f_user_name, f),
            None => None,
        }
    } else {
        None
    }
}

/// Read the fields of a [`PaForUser`] from field 2 on.
pub open spec fn pa_for_user_read_2(cs: Seq<AsnValue>, f_user_name: PrincipalNameView, f_user_realm: Seq<u8>) -> Option<PaForUserView> {
    if cs.len() > 0 {
        match Tag::<2, Checksum>::spec_from_value(cs[0]) {
            Some(f) => pa_for_user_read_3(cs.skip(1), f_user_name, f_user_realm, f),
            None => None,
        }
    } else {
        None
    }
}

/// Read the fields of a [`PaForUser`] from field 3 on.
pub open spec fn pa_for_user_read_3(cs: Seq<AsnValue>, f_user_name: PrincipalNameView, f_user_realm: Seq<u8>, f_cksum: ChecksumView) -> Option<PaForUserView> {
    if cs.len() > 0 {
        match Tag::<3, GeneralString>::spec_from_value(cs[0]) {
            Some(f) => pa_for_user_read_4(cs.skip(1), f_user_name, f_user_realm, f_cksum, f),
            None => None,
        }
    } else {
        None
    }
}

/// Past the last field of a [`PaForUser`]: the children must be spent.
pub open spec fn pa_for_user_read_4(cs: Seq<AsnValue>, f_user_name: PrincipalNameView, f_user_realm: Seq<u8>, f_cksum: ChecksumView, f_auth_package: Seq<u8>) -> Option<PaForUserView> {
    if cs.len() == 0 {
        Some(PaForUserView {
            user_name: f_user_name,
            user_realm: f_user_realm,
            cksum: f_cksum,
            auth_package: f_auth_package,
        })
    } else {
        None
    }
}

impl Asn1Data for PaForUser {
    open spec fn view_wf(v: PaForUserView) -> bool {
        Tag::<0, PrincipalName>::view_wf(v.user_name)
            && Tag::<1, Realm>::view_wf(v.user_realm)
            && Tag::<2, Checksum>::view_wf(v.cksum)
            && Tag::<3, GeneralString>::view_wf(v.auth_package)
    }

    open spec fn spec_to_value(v: PaForUserView) -> AsnValue {
        AsnValue::Sequence(pa_for_user_write_0(v))
    }

    open spec fn spec_from_value(a: AsnValue) -> Option<PaForUserView> {
        match a {
            AsnValue::Sequence(cs) => pa_for_user_read_0(cs),
            _ => None,
        }
    }

    fn to_value(&self) -> (r: Asn1Value) {
        let ghost v = self.deep_view();
        let mut children: Vec<Asn1Value> = Vec::new();
        let ghost mut gc: Seq<AsnValue> = Seq::empty();
        proof {
            assert(crate::der::view_list(children@) =~= gc);
            lemma_nil_concat(pa_for_user_write_0(v));
            assert(pa_for_user_write_0(v) == gc + pa_for_user_write_0(v));
        }
        let ghost ch_prev0 = children@;
        let ghost gc_prev0 = gc;
        children.push(self.user_name.to_value());
        proof {
            assert(children@.drop_last() =~= ch_prev0);
            gc = gc.push(Tag::<0, PrincipalName>::spec_to_value(self.user_name.deep_view()));
            assert(crate::der::view_list(children@) == gc);
            assert(pa_for_user_write_0(v) == seq![Tag::<0, PrincipalName>::spec_to_value(self.user_name.deep_view())] + pa_for_user_write_1(v));
            lemma_snoc_concat(gc_prev0, Tag::<0, PrincipalName>::spec_to_value(self.user_name.deep_view()), pa_for_user_write_1(v));
            assert(pa_for_user_write_0(v) == gc + pa_for_user_write_1(v));
        }
        let ghost ch_prev1 = children@;
        let ghost gc_prev1 = gc;
        children.push(self.user_realm.to_value());
        proof {
            assert(children@.drop_last() =~= ch_prev1);
            gc = gc.push(Tag::<1, Realm>::spec_to_value(self.user_realm.deep_view()));
            assert(crate::der::view_list(children@) == gc);
            assert(pa_for_user_write_1(v) == seq![Tag::<1, Realm>::spec_to_value(self.user_realm.deep_view())] + pa_for_user_write_2(v));
            lemma_snoc_concat(gc_prev1, Tag::<1, Realm>::spec_to_value(self.user_realm.deep_view()), pa_for_user_write_2(v));
            assert(pa_for_user_write_0(v) == gc + pa_for_user_write_2(v));
        }
        let ghost ch_prev2 = children@;
        let ghost gc_prev2 = gc;
        children.push(self.cksum.to_value());
        proof {
            assert(children@.drop_last() =~= ch_prev2);
            gc = gc.push(Tag::<2, Checksum>::spec_to_value(self.cksum.deep_view()));
            assert(crate::der::view_list(children@) == gc);
            assert(pa_for_user_write_2(v) == seq![Tag::<2, Checksum>::spec_to_value(self.cksum.deep_view())] + pa_for_user_write_3(v));
            lemma_snoc_concat(gc_prev2, Tag::<2, Checksum>::spec_to_value(self.cksum.deep_view()), pa_for_user_write_3(v));
            assert(pa_for_user_write_0(v) == gc + pa_for_user_write_3(v));
        }
        let ghost ch_prev3 = children@;
        let ghost gc_prev3 = gc;
        children.push(self.auth_package.to_value());
        proof {
            assert(children@.drop_last() =~= ch_prev3);
            gc = gc.push(Tag::<3, GeneralString>::spec_to_value(self.auth_package.deep_view()));
            assert(crate::der::view_list(children@) == gc);
            assert(pa_for_user_write_3(v) == seq![Tag::<3, GeneralString>::spec_to_value(self.auth_package.deep_view())] + pa_for_user_write_4(v));
            lemma_snoc_concat(gc_prev3, Tag::<3, GeneralString>::spec_to_value(self.auth_package.deep_view()), pa_for_user_write_4(v));
            assert(pa_for_user_write_0(v) == gc + pa_for_user_write_4(v));
        }
        proof {
            assert(pa_for_user_write_4(v) == Seq::<AsnValue>::empty());
            lemma_concat_nil(gc);
            assert(AsnValue::Sequence(gc) == Self::spec_to_value(v));
        }
        Asn1Value::Sequence(children)
    }

    fn from_value(a: &Asn1Value) -> (r: Result<Self, KerlabError>) {
        match a {
            Asn1Value::Sequence(cs) => {
                proof {
                    crate::der::lemma_view_list(cs@);
                }
                let ghost vl = crate::der::view_list(cs@);
                proof {
                    assert(vl.skip(0) =~= vl);
                    assert(Self::spec_from_value(a@) == pa_for_user_read_0(vl.skip(0)));
                }
                let n = cs.len();
                let mut i: usize = 0;
                if i >= n {
                    proof {
                        assert(vl.skip(i as int).len() == 0);
                    }
                    return Err(KerlabError::new(KerlabErrorKind::Parsing, "missing field"));
                }
                proof {
                    assert(vl.skip(i as int)[0] == vl[i as int]);
                    assert(vl[i as int] == cs@[i as int]@);
                }
                let f_user_name = match Tag::<0, PrincipalName>::from_value(&cs[i]) {
                    Ok(x) => x,
                    Err(e) => {
                        return Err(e);
                    },
                };
                proof {
                    lemma_skip_skip(vl, i as int);
                }
                i += 1;
                proof {
                    assert(Self::spec_from_value(a@) == pa_for_user_read_1(vl.skip(i as int), f_user_name.deep_view()));
                }
                if i >= n {
                    proof {
                        assert(vl.skip(i as int).len() == 0);
                    }
                    return Err(KerlabError::new(KerlabErrorKind::Parsing, "missing field"));
                }
                proof {
                    assert(vl.skip(i as int)[0] == vl[i as int]);
                    assert(vl[i as int] == cs@[i as int]@);
                }
                let f_user_realm = match Tag::<1, Realm>::from_value(&cs[i]) {
                    Ok(x) => x,
                    Err(e) => {
                        return Err(e);
                    },
                };
                proof {
                    lemma_skip_skip(vl, i as int);
                }
                i += 1;
                proof {
                    assert(Self::spec_from_value(a@) == pa_for_user_read_2(vl.skip(i as int), f_user_name.deep_view(), f_user_realm.deep_view()));
                }
                if i >= n {
                    proof {
                        assert(vl.skip(i as int).len() == 0);
                    }
                    return Err(KerlabError::new(KerlabErrorKind::Parsing, "missing field"));
                }
                proof {
                    assert(vl.skip(i as int)[0] == vl[i as int]);
                    assert(vl[i as int] == cs@[i as int]@);
                }
                let f_cksum = match Tag::<2, Checksum>::from_value(&cs[i]) {
                    Ok(x) => x,
                    Err(e) => {
                        return Err(e);
                    },
                };
                proof {
                    lemma_skip_skip(vl, i as int);
                }
                i += 1;
                proof {
                    assert(Self::spec_from_value(a@) == pa_for_user_read_3(vl.skip(i as int), f_user_name.deep_view(), f_user_realm.deep_view(), f_cksum.deep_view()));
                }
                if i >= n {
                    proof {
                        assert(vl.skip(i as int).len() == 0);
                    }
                    return Err(KerlabError::new(KerlabErrorKind::Parsing, "missing field"));
                }
                proof {
                    assert(vl.skip(i as int)[0] == vl[i as int]);
                    assert(vl[i as int] == cs@[i as int]@);
                }
                let f_auth_package = match Tag::<3, GeneralString>::from_value(&cs[i]) {
                    Ok(x) => x,
                    Err(e) => {
                        return Err(e);
                    },
                };
                proof {
                    lemma_skip_skip(vl, i as int);
                }
                i += 1;
                proof {
                    assert(Self::spec_from_value(a@) == pa_for_user_read_4(vl.skip(i as int), f_user_name.deep_view(), f_user_realm.deep_view(), f_cksum.deep_view(), f_auth_package.deep_view()));
                }
                if i != n {
                    return Err(KerlabError::new(KerlabErrorKind::Parsing, "unexpected extra field"));
                }
                proof {
                    assert(vl.skip(i as int).len() == 0);
                }
                Ok(PaForUser {
                    user_name: f_user_name,
                    user_realm: f_user_realm,
                    cksum: f_cksum,
                    auth_package: f_auth_package,
                })
            },
            _ => Err(KerlabError::new(KerlabErrorKind::Parsing, "expected a sequence")),
        }
    }

    proof fn lemma_round_trip(v: PaForUserView) {
        pa_for_user_rt_0(v);
        assert(Self::spec_from_value(Self::spec_to_value(v)) == Some(v));
    }
}

/// Reading no children past the last field yields the view back.
proof fn pa_for_user_rt_4(v: PaForUserView)
    requires
        PaForUser::view_wf(v),
    ensures
        pa_for_user_read_4(pa_for_user_write_4(v), v.user_name, v.user_realm, v.cksum, v.auth_package) == Some(v),
        forall|j: int| 0 <= j < pa_for_user_write_4(v).len() ==> value_wf(#[trigger] pa_for_user_write_4(v)[j]),
{
    assert(pa_for_user_write_4(v).len() == 0);
    assert((PaForUserView { user_name: v.user_name, user_realm: v.user_realm, cksum: v.cksum, auth_package: v.auth_package }) =~= v);
}

/// Reading the children written from field 3 on yields the view back.
proof fn pa_for_user_rt_3(v: PaForUserView)
    requires
        PaForUser::view_wf(v),
    ensures
        pa_for_user_read_3(pa_for_user_write_3(v), v.user_name, v.user_realm, v.cksum) == Some(v),
        forall|j: int| 0 <= j < pa_for_user_write_3(v).len() ==> value_wf(#[trigger] pa_for_user_write_3(v)[j]),
{
    pa_for_user_rt_4(v);
    Tag::<3, GeneralString>::lemma_round_trip(v.auth_package);
    assert(pa_for_user_write_3(v) == seq![Tag::<3, GeneralString>::spec_to_value(v.auth_package)] + pa_for_user_write_4(v));
    assert(pa_for_user_write_3(v)[0] == Tag::<3, GeneralString>::spec_to_value(v.auth_package));
    assert(has_ctx(pa_for_user_write_3(v)[0], 3));
    lemma_cons_skip(Tag::<3, GeneralString>::spec_to_value(v.auth_package), pa_for_user_write_4(v));
    assert(pa_for_user_read_3(pa_for_user_write_3(v), v.user_name, v.user_realm, v.cksum) == pa_for_user_read_4(pa_for_user_write_4(v), v.user_name, v.user_realm, v.cksum, v.auth_package));
    assert forall|j: int| 0 <= j < pa_for_user_write_3(v).len() implies value_wf(#[trigger] pa_for_user_write_3(v)[j]) by {
        if j >= 1 {
            assert(pa_for_user_write_3(v)[j] == pa_for_user_write_4(v)[j - 1]);
        }
    }
}

/// Reading the children written from field 2 on yields the view back.
proof fn pa_for_user_rt_2(v: PaForUserView)
    requires
        PaForUser::view_wf(v),
    ensures
        pa_for_user_read_2(pa_for_user_write_2(v), v.user_name, v.user_realm) == Some(v),
        forall|j: int| 0 <= j < pa_for_user_write_2(v).len() ==> value_wf(#[trigger] pa_for_user_write_2(v)[j]),
{
    pa_for_user_rt_3(v);
    Tag::<2, Checksum>::lemma_round_trip(v.cksum);
    assert(pa_for_user_write_2(v) == seq![Tag::<2, Checksum>::spec_to_value(v.cksum)] + pa_for_user_write_3(v));
    assert(pa_for_user_write_2(v)[0] == Tag::<2, Checksum>::spec_to_value(v.cksum));
    assert(has_ctx(pa_for_user_write_2(v)[0], 2));
    lemma_cons_skip(Tag::<2, Checksum>::spec_to_value(v.cksum), pa_for_user_write_3(v));
    assert(pa_for_user_read_2(pa_for_user_write_2(v), v.user_name, v.user_realm) == pa_for_user_read_3(pa_for_user_write_3(v), v.user_name, v.user_realm, v.cksum));
    assert forall|j: int| 0 <= j < pa_for_user_write_2(v).len() implies value_wf(#[trigger] pa_for_user_write_2(v)[j]) by {
        if j >= 1 {
            assert(pa_for_user_write_2(v)[j] == pa_for_user_write_3(v)[j - 1]);
        }
    }
}

/// Reading the children written from field 1 on yields the view back.
proof fn pa_for_user_rt_1(v: PaForUserView)
    requires
        PaForUser::view_wf(v),
    ensures
        pa_for_user_read_1(pa_for_user_write_1(v), v.user_name) == Some(v),
        forall|j: int| 0 <= j < pa_for_user_write_1(v).len() ==> value_wf(#[trigger] pa_for_user_write_1(v)[j]),
{
    pa_for_user_rt_2(v);
    Tag::<1, Realm>::lemma_round_trip(v.user_realm);
    assert(pa_for_user_write_1(v) == seq![Tag::<1, Realm>::spec_to_value(v.user_realm)] + pa_for_user_write_2(v));
    assert(pa_for_user_write_1(v)[0] == Tag::<1, Realm>::spec_to_value(v.user_realm));
    assert(has_ctx(pa_for_user_write_1(v)[0], 1));
    lemma_cons_skip(Tag::<1, Realm>::spec_to_value(v.user_realm), pa_for_user_write_2(v));
    assert(pa_for_user_read_1(pa_for_user_write_1(v), v.user_name) == pa_for_user_read_2(pa_for_user_write_2(v), v.user_name, v.user_realm));
    assert forall|j: int| 0 <= j < pa_for_user_write_1(v).len() implies value_wf(#[trigger] pa_for_user_write_1(v)[j]) by {
        if j >= 1 {
            assert(pa_for_user_write_1(v)[j] == pa_for_user_write_2(v)[j - 1]);
        }
    }
}

/// Reading the children written from field 0 on yields the view back.
proof fn pa_for_user_rt_0(v: PaForUserView)
    requires
        PaForUser::view_wf(v),
    ensures
        pa_for_user_read_0(pa_for_user_write_0(v)) == Some(v),
        forall|j: int| 0 <= j < pa_for_user_write_0(v).len() ==> value_wf(#[trigger] pa_for_user_write_0(v)[j]),
{
    pa_for_user_rt_1(v);
    Tag::<0, PrincipalName>::lemma_round_trip(v.user_name);
    assert(pa_for_user_write_0(v) == seq![Tag::<0, PrincipalName>::spec_to_value(v.user_name)] + pa_for_user_write_1(v));
    assert(pa_for_user_write_0(v)[0] == Tag::<0, PrincipalName>::spec_to_value(v.user_name));
    assert(has_ctx(pa_for_user_write_0(v)[0], 0));
    lemma_cons_skip(Tag::<0, PrincipalName>::spec_to_value(v.user_name), pa_for_user_write_1(v));
    assert(pa_for_user_read_0(pa_for_user_write_0(v)) == pa_for_user_read_1(pa_for_user_write_1(v), v.user_name));
    assert forall|j: int| 0 <= j < pa_for_user_write_0(v).len() implies value_wf(#[trigger] pa_for_user_write_0(v)[j]) by {
        if j >= 1 {
            assert(pa_for_user_write_0(v)[j] == pa_for_user_write_1(v)[j - 1]);
        }
    }
}

/// The pre-authentication data types of RFC 4120 and MS-SFU.
#[derive(Clone, Copy, Debug, PartialEq, Eq, Structural)]
pub enum PaDataType {
    PaTgsReq,
    PaEncTimestamp,
    PaPwSalt,
    PaEncUnixTime,
    PaSandiaSecureid,
    PaSesame,
    PaOsfDce,
    PaCybersafeSecureid,
    PaAfs3Salt,
    PaEtypeInfo,
    PaSamChallenge,
    PaSamResponse,
    PaPkAsReqOld,
    PaPkAsRepOld,
    PaPkAsReq,
    PaPkAsRep,
    PaEtypeInfo2,
    PaSvrReferralInfo,
    PaSamRedirect,
    PaGetFromTypedData,
    PaSamEtypeInfo,
    PaAltPrinc,
    PaSamChallenge2,
    PaSamResponse2,
    PaExtraTgt,
    TdPkinitCmsCertificates,
    TdKrbPrincipal,
    TdKrbRealm,
    TdTrustedCertifiers,
    TdCertificateIndex,
    TdAppDefinedError,
    TdReqNonce,
    TdReqSeq,
    PaPacRequest,
    PaForUserType,
    PaFxCookie,
    PaFxFast,
    PaFxError,
    PaEncryptedChallenge,
    KerbKeyListReq,
    KerbKeyListRep,
    PaSupportedEnctypes,
    PaPacOptions,
}

impl PaDataType {
    /// The integer this pre-authentication type is identified by on the wire.
    pub open spec fn spec_value(&self) -> u32 {
        match self {
            PaDataType::PaTgsReq => 1,
            PaDataType::PaEncTimestamp => 2,
            PaDataType::PaPwSalt => 3,
            PaDataType::PaEncUnixTime => 5,
            PaDataType::PaSandiaSecureid => 6,
            PaDataType::PaSesame => 7,
            PaDataType::PaOsfDce => 8,
            PaDataType::PaCybersafeSecureid => 9,
            PaDataType::PaAfs3Salt => 10,
            PaDataType::PaEtypeInfo => 11,
            PaDataType::PaSamChallenge => 12,
            PaDataType::PaSamResponse => 13,
            PaDataType::PaPkAsReqOld => 14,
            PaDataType::PaPkAsRepOld => 15,
            PaDataType::PaPkAsReq => 16,
            PaDataType::PaPkAsRep => 17,
            PaDataType::PaEtypeInfo2 => 19,
            PaDataType::PaSvrReferralInfo => 20,
            PaDataType::PaSamRedirect => 21,
            PaDataType::PaGetFromTypedData => 22,
            PaDataType::PaSamEtypeInfo => 23,
            PaDataType::PaAltPrinc => 24,
            PaDataType::PaSamChallenge2 => 30,
            PaDataType::PaSamResponse2 => 31,
            PaDataType::PaExtraTgt => 41,
            PaDataType::TdPkinitCmsCertificates => 101,
            PaDataType::TdKrbPrincipal => 102,
            PaDataType::TdKrbRealm => 103,
            PaDataType::TdTrustedCertifiers => 104,
            PaDataType::TdCertificateIndex => 105,
            PaDataType::TdAppDefinedError => 106,
            PaDataType::TdReqNonce => 107,
            PaDataType::TdReqSeq => 108,
            PaDataType::PaPacRequest => 128,
            PaDataType::PaForUserType => 129,
            PaDataType::PaFxCookie => 133,
            PaDataType::PaFxFast => 136,
            PaDataType::PaFxError => 137,
            PaDataType::PaEncryptedChallenge => 138,
            PaDataType::KerbKeyListReq => 161,
            PaDataType::KerbKeyListRep => 162,
            PaDataType::PaSupportedEnctypes => 165,
            PaDataType::PaPacOptions => 167,
        }
    }

    /// The integer this pre-authentication type is identified by on the wire.
    pub fn value(&self) -> (r: u32)
        ensures
            r == self.spec_value(),
    {
        match self {
            PaDataType::PaTgsReq => 1,
            PaDataType::PaEncTimestamp => 2,
            PaDataType::PaPwSalt => 3,
            PaDataType::PaEncUnixTime => 5,
            PaDataType::PaSandiaSecureid => 6,
            PaDataType::PaSesame => 7,
            PaDataType::PaOsfDce => 8,
            PaDataType::PaCybersafeSecureid => 9,
            PaDataType::PaAfs3Salt => 10,
            PaDataType::PaEtypeInfo => 11,
            PaDataType::PaSamChallenge => 12,
            PaDataType::PaSamResponse => 13,
            PaDataType::PaPkAsReqOld => 14,
            PaDataType::PaPkAsRepOld => 15,
            PaDataType::PaPkAsReq => 16,
            PaDataType::PaPkAsRep => 17,
            PaDataType::PaEtypeInfo2 => 19,
            PaDataType::PaSvrReferralInfo => 20,
            PaDataType::PaSamRedirect => 21,
            PaDataType::PaGetFromTypedData => 22,
            PaDataType::PaSamEtypeInfo => 23,
            PaDataType::PaAltPrinc => 24,
            PaDataType::PaSamChallenge2 => 30,
            PaDataType::PaSamResponse2 => 31,
            PaDataType::PaExtraTgt => 41,
            PaDataType::TdPkinitCmsCertificates => 101,
            PaDataType::TdKrbPrincipal => 102,
            PaDataType::TdKrbRealm => 103,
            PaDataType::TdTrustedCertifiers => 104,
            PaDataType::TdCertificateIndex => 105,
            PaDataType::TdAppDefinedError => 106,
            PaDataType::TdReqNonce => 107,
            PaDataType::TdReqSeq => 108,
            PaDataType::PaPacRequest => 128,
            PaDataType::PaForUserType => 129,
            PaDataType::PaFxCookie => 133,
            PaDataType::PaFxFast => 136,
            PaDataType::PaFxError => 137,
            PaDataType::PaEncryptedChallenge => 138,
            PaDataType::KerbKeyListReq => 161,
            PaDataType::KerbKeyListRep => 162,
            PaDataType::PaSupportedEnctypes => 165,
            PaDataType::PaPacOptions => 167,
        }
    }
}

impl PaData {
    /// Wrap any encodable message as a pre-authentication entry: its type
    /// plus the DER of its value.
    pub fn new<T: Asn1Data>(patype: PaDataType, pavalue: &T) -> (r: Self)
        requires
            T::view_wf(pavalue.deep_view()),
        ensures
            r.deep_view() == (PaDataView {
                padata_type: patype.spec_value(),
                padata_value: crate::asn1::spec_to_der::<T>(pavalue.deep_view()),
            }),
    {
        PaData {
            padata_type: Tag::new(patype.value()),
            padata_value: Tag::new(OctetString::from_vec(crate::asn1::to_der(pavalue))),
        }
    }
}

impl PaEncTsEnc {
    /// The pre-authentication timestamp for the current moment, with no
    /// microseconds part.
    pub fn now() -> (r: Self)
        ensures
            r.deep_view().patimestamp.wf(),
            r.deep_view().pausec is None,
    {
        PaEncTsEnc { patimestamp: Tag::new(now_utc()), pausec: None }
    }
}

/// What a PA-ENC-TIMESTAMP entry's value is for a key and a clock
/// reading: the DER of the encrypted `PaEncTsEnc { ts, no microseconds }`,
/// cleartext for a null key, sealed under some 8-byte confounder for an
/// RC4-HMAC key.
pub open spec fn pa_timestamp_value(
    key: crate::encryption::EncryptionKeyView,
    ts: GeneralizedTime,
    value: Seq<u8>,
) -> bool {
    let der = crate::asn1::spec_to_der::<PaEncTsEnc>(
        PaEncTsEncView { patimestamp: ts, pausec: None },
    );
    if key.keytype == 0 {
        value == crate::asn1::spec_to_der::<crate::encryption::EncryptedData>(
            crate::encryption::EncryptedDataView { etype: 0, kvno: None, cipher: der },
        )
    } else {
        exists|conf: Seq<u8>|
            #[trigger] conf.len() == 8 && value == crate::asn1::spec_to_der::<
                crate::encryption::EncryptedData,
            >(
                crate::encryption::EncryptedDataView {
                    etype: 23,
                    kvno: None,
                    cipher: crate::rc4hmac::rc4hmac_seal(key.keyvalue, 1, conf, der),
                },
            )
    }
}

impl PaData {
    /// The PA-ENC-TIMESTAMP entry: the current timestamp, with no
    /// microseconds part, encrypted under the client key with the
    /// AS-REQ-Timestamp usage. The entry's value is the DER of that
    /// envelope: cleartext DER for a null key, an RC4-HMAC sealing under
    /// some fresh 8-byte confounder for an RC4-HMAC key. Only the clock
    /// reading and the confounder are left open.
    pub fn pa_enc_timestamp(key: &EncryptionKey) -> (r: KerlabResult<Self>)
        ensures
            match r {
                Ok(p) => {
                    &&& (key.deep_view().keytype == 0 || key.deep_view().keytype == 23)
                    &&& p.deep_view().padata_type == PaDataType::PaEncTimestamp.spec_value()
                    &&& exists|ts: GeneralizedTime|
                        #[trigger] ts.wf() && pa_timestamp_value(
                            key.deep_view(),
                            ts,
                            p.deep_view().padata_value,
                        )
                },
                Err(e) => key.deep_view().keytype != 0 && key.deep_view().keytype != 23
                    && e.spec_kind() == KerlabErrorKind::Crypto,
            },
    {
        let stamp = PaEncTsEnc::now();
        let sealed = match key.encrypt(KeyUsage::KeyUsageAsReqTimestamp, &stamp) {
            Ok(x) => x,
            Err(e) => {
                return Err(e);
            },
        };
        let entry = PaData::new(PaDataType::PaEncTimestamp, &sealed);
        proof {
            let kv = key.deep_view();
            let ts = stamp.deep_view().patimestamp;
            assert(stamp.deep_view() =~= (PaEncTsEncView { patimestamp: ts, pausec: None }));
            let der = crate::asn1::spec_to_der::<PaEncTsEnc>(stamp.deep_view());
            if kv.keytype == 0 {
                assert(sealed.deep_view() =~= (crate::encryption::EncryptedDataView {
                    etype: 0,
                    kvno: None,
                    cipher: der,
                }));
            } else {
                let conf = choose|c: Seq<u8>|
                    c.len() == 8 && sealed.deep_view().cipher == crate::rc4hmac::rc4hmac_seal(
                        kv.keyvalue,
                        KeyUsage::KeyUsageAsReqTimestamp.spec_value(),
                        c,
                        der,
                    );
                assert(sealed.deep_view() =~= (crate::encryption::EncryptedDataView {
                    etype: 23,
                    kvno: None,
                    cipher: crate::rc4hmac::rc4hmac_seal(kv.keyvalue, 1, conf, der),
                }));
            }
            assert(ts.wf() && pa_timestamp_value(kv, ts, entry.deep_view().padata_value));
        }
        Ok(entry)
    }

    /// The S4U2self PA-FOR-USER entry for a user name and realm, signed
    /// under the key.
    pub fn pa_for_user(
        user_name: PrincipalName,
        user_realm: Realm,
        key: &EncryptionKey,
    ) -> (r: KerlabResult<Self>)
        requires
            PrincipalName::view_wf(user_name.deep_view()),
            GeneralString::view_wf(user_realm.deep_view()),
        ensures
            r matches Ok(p) && p.deep_view().padata_type == PaDataType::PaForUserType.spec_value()
                && p.deep_view().padata_value == crate::asn1::spec_to_der::<PaForUser>(
                PaForUserView {
                    user_name: user_name.deep_view(),
                    user_realm: user_realm.deep_view(),
                    cksum: ChecksumView {
                        cksumtype: -138i32,
                        checksum: spec_kerberos_hmac_md5(
                            key.deep_view().keyvalue,
                            17,
                            s4u_checksum_input(user_name.deep_view(), user_realm.deep_view()),
                        ),
                    },
                    auth_package: auth_package_bytes(),
                },
            ),
    {
        let body = PaForUser::new(user_name, user_realm, key);
        Ok(PaData::new(PaDataType::PaForUserType, &body))
    }
}

/// The ASCII bytes of the auth-package name `Kerberos`.
pub open spec fn auth_package_bytes() -> Seq<u8> {
    seq![75u8, 101u8, 114u8, 98u8, 101u8, 114u8, 111u8, 115u8]
}

/// The concatenation of a list of byte strings.
pub open spec fn concat_bytes(s: Seq<Seq<u8>>) -> Seq<u8>
    decreases s.len(),
{
    if s.len() == 0 {
        Seq::empty()
    } else {
        concat_bytes(s.drop_last()) + s.last()
    }
}

/// The text the PA-FOR-USER checksum signs: the little-endian name type,
/// the labels, the realm, and the auth-package name.
pub open spec fn s4u_checksum_input(name: PrincipalNameView, realm: Seq<u8>) -> Seq<u8> {
    le32(name.name_type) + concat_bytes(name.name_string) + realm + auth_package_bytes()
}

impl PaForUser {
    /// Build a PA-FOR-USER body: the name, the realm, and their Kerberos
    /// HMAC-MD5 checksum under the key with usage 17.
    pub fn new(user_name: PrincipalName, user_realm: Realm, key: &EncryptionKey) -> (r: Self)
        requires
            PrincipalName::view_wf(user_name.deep_view()),
            GeneralString::view_wf(user_realm.deep_view()),
        ensures
            r.deep_view() == (PaForUserView {
                user_name: user_name.deep_view(),
                user_realm: user_realm.deep_view(),
                cksum: ChecksumView {
                    cksumtype: -138i32,
                    checksum: spec_kerberos_hmac_md5(
                        key.deep_view().keyvalue,
                        17,
                        s4u_checksum_input(user_name.deep_view(), user_realm.deep_view()),
                    ),
                },
                auth_package: auth_package_bytes(),
            }),
            PaForUser::view_wf(r.deep_view()),
    {
        let mut data = le32_bytes_of_name_type(user_name.name_type.inner);
        let labels = &user_name.name_string.inner;
        let mut li: usize = 0;
        proof {
            assert(user_name.deep_view().name_string.take(0) =~= Seq::<Seq<u8>>::empty());
            assert(data@ =~= le32(user_name.deep_view().name_type) + concat_bytes(
                user_name.deep_view().name_string.take(0),
            ));
        }
        while li < labels.len()
            invariant
                li <= labels@.len(),
                labels.deep_view() == user_name.deep_view().name_string,
                labels.deep_view().len() == labels@.len(),
                data@ == le32(user_name.deep_view().name_type) + concat_bytes(
                    user_name.deep_view().name_string.take(li as int),
                ),
            decreases labels@.len() - li,
        {
            proof {
                let ns = user_name.deep_view().name_string;
                assert(ns.take(li + 1).drop_last() =~= ns.take(li as int));
                assert(ns.take(li + 1).last() == ns[li as int]);
                assert(labels@[li as int].deep_view() == ns[li as int]);
            }
            data.extend_from_slice(labels[li].as_bytes());
            proof {
                let ns = user_name.deep_view().name_string;
                assert(data@ =~= le32(user_name.deep_view().name_type) + concat_bytes(
                    ns.take(li + 1),
                ));
            }
            li += 1;
        }
        proof {
            let ns = user_name.deep_view().name_string;
            assert(ns.take(ns.len() as int) =~= ns);
        }
        data.extend_from_slice(user_realm.as_bytes());
        data.push(75);
        data.push(101);
        data.push(114);
        data.push(98);
        data.push(101);
        data.push(114);
        data.push(111);
        data.push(115);
        assert(data@ =~= s4u_checksum_input(user_name.deep_view(), user_realm.deep_view()));

        let checksum = kerberos_hmac_md5(key.keyvalue.inner.data.as_slice(), 17, data.as_slice());
        let mut package: Vec<u8> = Vec::new();
        package.push(75);
        package.push(101);
        package.push(114);
        package.push(98);
        package.push(101);
        package.push(114);
        package.push(111);
        package.push(115);
        assert(package@ =~= auth_package_bytes());
        PaForUser {
            user_name: Tag::new(user_name),
            user_realm: Tag::new(user_realm),
            cksum: Tag::new(
                Checksum::new(-138, OctetString::from_vec(checksum)),
            ),
            auth_package: Tag::new(GeneralString { bytes: package }),
        }
    }
}

/// The little-endian bytes of a principal name type.
fn le32_bytes_of_name_type(name_type: u32) -> (r: Vec<u8>)
    ensures
        r@ == le32(name_type),
{
    crate::rc4hmac::le32_bytes(name_type)
}

} // verus!