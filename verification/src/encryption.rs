//! The encryption envelope: `EncryptedData`, `EncryptionKey`, the
//! encryption-type and key-usage constants of RFC 4757.

use vstd::prelude::*;

verus! {

use crate::asn1::{
    Asn1Data, lemma_concat_nil, lemma_cons_skip, lemma_nil_concat, lemma_skip_skip, lemma_snoc_concat, BitStringView, GeneralString, Integer, OctetString, SequenceOf, SInteger, Tag,
    has_ctx, is_ctx,
};
use crate::asn1::{from_ber, spec_from_bytes, spec_to_der, to_der};
use crate::base::{KerberosTime, Realm};
use crate::ntlm::{md4_of, ntlm, utf16le_of};
use crate::rc4hmac::{rc4hmac_open, rc4hmac_seal, Rc4Hmac};
use crate::der::{AsnValue, Asn1Value, GeneralizedTime, value_wf};
use crate::error::{KerlabError, KerlabErrorKind, KerlabResult};

/// An encrypted blob (`etype[0] INTEGER, kvno[1] INTEGER OPTIONAL, cipher[2] OCTET STRING`).
#[derive(Debug, Clone, PartialEq, Default)]
pub struct EncryptedData {
    pub etype: Tag<0, Integer>,
    pub kvno: Option<Tag<1, Integer>>,
    pub cipher: Tag<2, OctetString>,
}

/// The deep view of [`EncryptedData`].
#[verifier::ext_equal]
pub struct EncryptedDataView {
    pub etype: u32,
    pub kvno: Option<u32>,
    pub cipher: Seq<u8>,
}

impl DeepView for EncryptedData {
    type V = EncryptedDataView;

    open spec fn deep_view(&self) -> EncryptedDataView {
        EncryptedDataView {
            etype: self.etype.deep_view(),
            kvno: self.kvno.deep_view(),
            cipher: self.cipher.deep_view(),
        }
    }
}

/// The children a [`EncryptedData`] writes from its field 0 on.
pub open spec fn encrypted_data_write_0(v: EncryptedDataView) -> Seq<AsnValue> {
    seq![Tag::<0, Integer>::spec_to_value(v.etype)] + encrypted_data_write_1(v)
}

/// The children a [`EncryptedData`] writes from its field 1 on.
pub open spec fn encrypted_data_write_1(v: EncryptedDataView) -> Seq<AsnValue> {
    match v.kvno {
        Some(x) => seq![Tag::<1, Integer>::spec_to_value(x)] + encrypted_data_write_2(v),
        None => encrypted_data_write_2(v),
    }
}

/// The children a [`EncryptedData`] writes from its field 2 on.
pub open spec fn encrypted_data_write_2(v: EncryptedDataView) -> Seq<AsnValue> {
    seq![Tag::<2, OctetString>::spec_to_value(v.cipher)] + encrypted_data_write_3(v)
}

/// The children a [`EncryptedData`] writes past its last field: none.
pub open spec fn encrypted_data_write_3(v: EncryptedDataView) -> Seq<AsnValue> {
    Seq::empty()
}

/// Read the fields of a [`EncryptedData`] from field 0 on.
pub open spec fn encrypted_data_read_0(cs: Seq<AsnValue>) -> Option<EncryptedDataView> {
    if cs.len() > 0 {
        match Tag::<0, Integer>::spec_from_value(cs[0]) {
            Some(f) => encrypted_data_read_1(cs.skip(1), f),
            None => None,
        }
    } else {
        None
    }
}

/// Read the fields of a [`EncryptedData`] from field 1 on.
pub open spec fn encrypted_data_read_1(cs: Seq<AsnValue>, f_etype: u32) -> Option<EncryptedDataView> {
    if cs.len() > 0 && has_ctx(cs[0], 1) {
        match Tag::<1, Integer>::spec_from_value(cs[0]) {
            Some(f) => encrypted_data_read_2(cs.skip(1), f_etype, Some(f)),
            None => None,
        }
    } else {
        encrypted_data_read_2(cs, f_etype, None::<u32>)
    }
}

/// Read the fields of a [`EncryptedData`] from field 2 on.
pub open spec fn encrypted_data_read_2(cs: Seq<AsnValue>, f_etype: u32, f_kvno: Option<u32>) -> Option<EncryptedDataView> {
    if cs.len() > 0 {
        match Tag::<2, OctetString>::spec_from_value(cs[0]) {
            Some(f) => encrypted_data_read_3(cs.skip(1), f_etype, f_kvno, f),
            None => None,
        }
    } else {
        None
    }
}

/// Past the last field of a [`EncryptedData`]: the children must be spent.
pub open spec fn encrypted_data_read_3(cs: Seq<AsnValue>, f_etype: u32, f_kvno: Option<u32>, f_cipher: Seq<u8>) -> Option<EncryptedDataView> {
    if cs.len() == 0 {
        Some(EncryptedDataView {
            etype: f_etype,
            kvno: f_kvno,
            cipher: f_cipher,
        })
    } else {
        None
    }
}

impl Asn1Data for EncryptedData {
    open spec fn view_wf(v: EncryptedDataView) -> bool {
        Tag::<0, Integer>::view_wf(v.etype)
            && (match v.kvno {
            Some(x) => Tag::<1, Integer>::view_wf(x),
            None => true,
        })
            && Tag::<2, OctetString>::view_wf(v.cipher)
    }

    open spec fn spec_to_value(v: EncryptedDataView) -> AsnValue {
        AsnValue::Sequence(encrypted_data_write_0(v))
    }

    open spec fn spec_from_value(a: AsnValue) -> Option<EncryptedDataView> {
        match a {
            AsnValue::Sequence(cs) => encrypted_data_read_0(cs),
            _ => None,
        }
    }

    fn to_value(&self) -> (r: Asn1Value) {
        let ghost v = self.deep_view();
        let mut children: Vec<Asn1Value> = Vec::new();
        let ghost mut gc: Seq<AsnValue> = Seq::empty();
        proof {
            assert(crate::der::view_list(children@) =~= gc);
            lemma_nil_concat(encrypted_data_write_0(v));
            assert(encrypted_data_write_0(v) == gc + encrypted_data_write_0(v));
        }
        let ghost ch_prev0 = children@;
        let ghost gc_prev0 = gc;
        children.push(self.etype.to_value());
        proof {
            assert(children@.drop_last() =~= ch_prev0);
            gc = gc.push(Tag::<0, Integer>::spec_to_value(self.etype.deep_view()));
            assert(crate::der::view_list(children@) == gc);
            assert(encrypted_data_write_0(v) == seq![Tag::<0, Integer>::spec_to_value(self.etype.deep_view())] + encrypted_data_write_1(v));
            lemma_snoc_concat(gc_prev0, Tag::<0, Integer>::spec_to_value(self.etype.deep_view()), encrypted_data_write_1(v));
            assert(encrypted_data_write_0(v) == gc + encrypted_data_write_1(v));
        }
        match &self.kvno {
            Some(x) => {
                let ghost ch_prev = children@;
                let ghost gc_prev = gc;
                children.push(x.to_value());
                proof {
                    assert(children@.drop_last() =~= ch_prev);
                    gc = gc.push(Tag::<1, Integer>::spec_to_value(x.deep_view()));
                    assert(crate::der::view_list(children@) == gc);
                    assert(encrypted_data_write_1(v) == seq![Tag::<1, Integer>::spec_to_value(x.deep_view())] + encrypted_data_write_2(v));
                    lemma_snoc_concat(gc_prev, Tag::<1, Integer>::spec_to_value(x.deep_view()), encrypted_data_write_2(v));
                    assert(encrypted_data_write_0(v) == gc + encrypted_data_write_2(v));
                }
            },
            None => {
                proof {
                    assert(encrypted_data_write_1(v) == encrypted_data_write_2(v));
                    assert(encrypted_data_write_0(v) == gc + encrypted_data_write_2(v));
                }
            },
        }
        let ghost ch_prev2 = children@;
        let ghost gc_prev2 = gc;
        children.push(self.cipher.to_value());
        proof {
            assert(children@.drop_last() =~= ch_prev2);
            gc = gc.push(Tag::<2, OctetString>::spec_to_value(self.cipher.deep_view()));
            assert(crate::der::view_list(children@) == gc);
            assert(encrypted_data_write_2(v) == seq![Tag::<2, OctetString>::spec_to_value(self.cipher.deep_view())] + encrypted_data_write_3(v));
            lemma_snoc_concat(gc_prev2, Tag::<2, OctetString>::spec_to_value(self.cipher.deep_view()), encrypted_data_write_3(v));
            assert(encrypted_data_write_0(v) == gc + encrypted_data_write_3(v));
        }
        proof {
            assert(encrypted_data_write_3(v) == Seq::<AsnValue>::empty());
            lemma_concat_nil(gc);
            assert(AsnValue::Sequence(gc) == Self::spec_to_value(v));
        }
        Asn1Value::Sequence(children)
    }

    fn from_value(a: &Asn1Value) -> (r: Result<Self, KerlabError>) {
        match a {
            Asn1Value::Sequence(cs) => {
                proof {
                    crate::der::lemma_view_list(cs@);
                }
                let ghost vl = crate::der::view_list(cs@);
                proof {
                    assert(vl.skip(0) =~= vl);
                    assert(Self::spec_from_value(a@) == encrypted_data_read_0(vl.skip(0)));
                }
                let n = cs.len();
                let mut i: usize = 0;
                if i >= n {
                    proof {
                        assert(vl.skip(i as int).len() == 0);
                    }
                    return Err(KerlabError::new(KerlabErrorKind::Parsing, "missing field"));
                }
                proof {
                    assert(vl.skip(i as int)[0] == vl[i as int]);
                    assert(vl[i as int] == cs@[i as int]@);
                }
                let f_etype = match Tag::<0, Integer>::from_value(&cs[i]) {
                    Ok(x) => x,
                    Err(e) => {
                        return Err(e);
                    },
                };
                proof {
                    lemma_skip_skip(vl, i as int);
                }
                i += 1;
                proof {
                    assert(Self::spec_from_value(a@) == encrypted_data_read_1(vl.skip(i as int), f_etype.deep_view()));
                }
                let mut f_kvno: Option<Tag<1, Integer>> = None;
                if i < n && is_ctx(&cs[i], 1) {
                    proof {
                        assert(vl.skip(i as int)[0] == vl[i as int]);
                        assert(vl[i as int] == cs@[i as int]@);
                    }
                    match Tag::<1, Integer>::from_value(&cs[i]) {
                        Ok(x) => {
                            proof {
                                lemma_skip_skip(vl, i as int);
                            }
                            f_kvno = Some(x);
                            i += 1;
                        },
                        Err(e) => {
                            return Err(e);
                        },
                    }
                } else {
                    proof {
                        if i < n {
                            assert(vl.skip(i as int)[0] == vl[i as int]);
                            assert(vl[i as int] == cs@[i as int]@);
                        }
                    }
                }
                proof {
                    assert(Self::spec_from_value(a@) == encrypted_data_read_2(vl.skip(i as int), f_etype.deep_view(), f_kvno.deep_view()));
                }
                if i >= n {
                    proof {
                        assert(vl.skip(i as int).len() == 0);
                    }
                    return Err(KerlabError::new(KerlabErrorKind::Parsing, "missing field"));
                }
                proof {
                    assert(vl.skip(i as int)[0] == vl[i as int]);
                    assert(vl[i as int] == cs@[i as int]@);
                }
                let f_cipher = match Tag::<2, OctetString>::from_value(&cs[i]) {
                    Ok(x) => x,
                    Err(e) => {
                        return Err(e);
                    },
                };
                proof {
                    lemma_skip_skip(vl, i as int);
                }
                i += 1;
                proof {
                    assert(Self::spec_from_value(a@) == encrypted_data_read_3(vl.skip(i as int), f_etype.deep_view(), f_kvno.deep_view(), f_cipher.deep_view()));
                }
                if i != n {
                    return Err(KerlabError::new(KerlabErrorKind::Parsing, "unexpected extra field"));
                }
                proof {
                    assert(vl.skip(i as int).len() == 0);
                }
                Ok(EncryptedData {
                    etype: f_etype,
                    kvno: f_kvno,
                    cipher: f_cipher,
                })
            },
            _ => Err(KerlabError::new(KerlabErrorKind::Parsing, "expected a sequence")),
        }
    }

    proof fn lemma_round_trip(v: EncryptedDataView) {
        encrypted_data_rt_0(v);
        assert(Self::spec_from_value(Self::spec_to_value(v)) == Some(v));
    }
}

/// Reading no children past the last field yields the view back.
proof fn encrypted_data_rt_3(v: EncryptedDataView)
    requires
        EncryptedData::view_wf(v),
    ensures
        encrypted_data_read_3(encrypted_data_write_3(v), v.etype, v.kvno, v.cipher) == Some(v),
        forall|j: int| 0 <= j < encrypted_data_write_3(v).len() ==> value_wf(#[trigger] encrypted_data_write_3(v)[j]),
{
    assert(encrypted_data_write_3(v).len() == 0);
    assert((EncryptedDataView { etype: v.etype, kvno: v.kvno, cipher: v.cipher }) =~= v);
}

/// Reading the children written from field 2 on yields the view back.
proof fn encrypted_data_rt_2(v: EncryptedDataView)
    requires
        EncryptedData::view_wf(v),
    ensures
        encrypted_data_read_2(encrypted_data_write_2(v), v.etype, v.kvno) == Some(v),
        forall|j: int| 0 <= j < encrypted_data_write_2(v).len() ==> value_wf(#[trigger] encrypted_data_write_2(v)[j]),
{
    encrypted_data_rt_3(v);
    Tag::<2, OctetString>::lemma_round_trip(v.cipher);
    assert(encrypted_data_write_2(v) == seq![Tag::<2, OctetString>::spec_to_value(v.cipher)] + encrypted_data_write_3(v));
    assert(encrypted_data_write_2(v)[0] == Tag::<2, OctetString>::spec_to_value(v.cipher));
    assert(has_ctx(encrypted_data_write_2(v)[0], 2));
    lemma_cons_skip(Tag::<2, OctetString>::spec_to_value(v.cipher), encrypted_data_write_3(v));
    assert(encrypted_data_read_2(encrypted_data_write_2(v), v.etype, v.kvno) == encrypted_data_read_3(encrypted_data_write_3(v), v.etype, v.kvno, v.cipher));
    assert forall|j: int| 0 <= j < encrypted_data_write_2(v).len() implies value_wf(#[trigger] encrypted_data_write_2(v)[j]) by {
        if j >= 1 {
            assert(encrypted_data_write_2(v)[j] == encrypted_data_write_3(v)[j - 1]);
        }
    }
}

/// Reading the children written from field 1 on yields the view back.
proof fn encrypted_data_rt_1(v: EncryptedDataView)
    requires
        EncryptedData::view_wf(v),
    ensures
        encrypted_data_read_1(encrypted_data_write_1(v), v.etype) == Some(v),
        forall|j: int| 0 <= j < encrypted_data_write_1(v).len() ==> value_wf(#[trigger] encrypted_data_write_1(v)[j]),
{
    encrypted_data_rt_2(v);
    match v.kvno {
        Some(x) => {
            Tag::<1, Integer>::lemma_round_trip(x);
            assert(encrypted_data_write_1(v) == seq![Tag::<1, Integer>::spec_to_value(x)] + encrypted_data_write_2(v));
            assert(encrypted_data_write_1(v)[0] == Tag::<1, Integer>::spec_to_value(x));
            assert(has_ctx(encrypted_data_write_1(v)[0], 1));
            lemma_cons_skip(Tag::<1, Integer>::spec_to_value(x), encrypted_data_write_2(v));
            assert(encrypted_data_read_1(encrypted_data_write_1(v), v.etype) == encrypted_data_read_2(encrypted_data_write_2(v), v.etype, Some(x)));
            assert forall|j: int| 0 <= j < encrypted_data_write_1(v).len() implies value_wf(#[trigger] encrypted_data_write_1(v)[j]) by {
                if j >= 1 {
                    assert(encrypted_data_write_1(v)[j] == encrypted_data_write_2(v)[j - 1]);
                }
            }
        },
        None => {
            assert(encrypted_data_write_1(v) == encrypted_data_write_2(v));
            if encrypted_data_write_2(v).len() > 0 {
                assert(!has_ctx(encrypted_data_write_2(v)[0], 1));
            }
            assert(encrypted_data_read_1(encrypted_data_write_1(v), v.etype) == encrypted_data_read_2(encrypted_data_write_2(v), v.etype, None::<u32>));
        },
    }
}

/// Reading the children written from field 0 on yields the view back.
proof fn encrypted_data_rt_0(v: EncryptedDataView)
    requires
        EncryptedData::view_wf(v),
    ensures
        encrypted_data_read_0(encrypted_data_write_0(v)) == Some(v),
        forall|j: int| 0 <= j < encrypted_data_write_0(v).len() ==> value_wf(#[trigger] encrypted_data_write_0(v)[j]),
{
    encrypted_data_rt_1(v);
    Tag::<0, Integer>::lemma_round_trip(v.etype);
    assert(encrypted_data_write_0(v) == seq![Tag::<0, Integer>::spec_to_value(v.etype)] + encrypted_data_write_1(v));
    assert(encrypted_data_write_0(v)[0] == Tag::<0, Integer>::spec_to_value(v.etype));
    assert(has_ctx(encrypted_data_write_0(v)[0], 0));
    lemma_cons_skip(Tag::<0, Integer>::spec_to_value(v.etype), encrypted_data_write_1(v));
    assert(encrypted_data_read_0(encrypted_data_write_0(v)) == encrypted_data_read_1(encrypted_data_write_1(v), v.etype));
    assert forall|j: int| 0 <= j < encrypted_data_write_0(v).len() implies value_wf(#[trigger] encrypted_data_write_0(v)[j]) by {
        if j >= 1 {
            assert(encrypted_data_write_0(v)[j] == encrypted_data_write_1(v)[j - 1]);
        }
    }
}

/// A key (`keytype[0] INTEGER, keyvalue[1] OCTET STRING`).
#[derive(Debug, Clone, PartialEq, Default)]
pub struct EncryptionKey {
    pub keytype: Tag<0, Integer>,
    pub keyvalue: Tag<1, OctetString>,
}

/// The deep view of [`EncryptionKey`].
#[verifier::ext_equal]
pub struct EncryptionKeyView {
    pub keytype: u32,
    pub keyvalue: Seq<u8>,
}

impl DeepView for EncryptionKey {
    type V = EncryptionKeyView;

    open spec fn deep_view(&self) -> EncryptionKeyView {
        EncryptionKeyView {
            keytype: self.keytype.deep_view(),
            keyvalue: self.keyvalue.deep_view(),
        }
    }
}

/// The children a [`EncryptionKey`] writes from its field 0 on.
pub open spec fn encryption_key_write_0(v: EncryptionKeyView) -> Seq<AsnValue> {
    seq![Tag::<0, Integer>::spec_to_value(v.keytype)] + encryption_key_write_1(v)
}

/// The children a [`EncryptionKey`] writes from its field 1 on.
pub open spec fn encryption_key_write_1(v: EncryptionKeyView) -> Seq<AsnValue> {
    seq![Tag::<1, OctetString>::spec_to_value(v.keyvalue)] + encryption_key_write_2(v)
}

/// The children a [`EncryptionKey`] writes past its last field: none.
pub open spec fn encryption_key_write_2(v: EncryptionKeyView) -> Seq<AsnValue> {
    Seq::empty()
}

/// Read the fields of a [`EncryptionKey`] from field 0 on.
pub open spec fn encryption_key_read_0(cs: Seq<AsnValue>) -> Option<EncryptionKeyView> {
    if cs.len() > 0 {
        match Tag::<0, Integer>::spec_from_value(cs[0]) {
            Some(f) => encryption_key_read_1(cs.skip(1), f),
            None => None,
        }
    } else {
        None
    }
}

/// Read the fields of a [`EncryptionKey`] from field 1 on.
pub open spec fn encryption_key_read_1(cs: Seq<AsnValue>, f_keytype: u32) -> Option<EncryptionKeyView> {
    if cs.len() > 0 {
        match Tag::<1, OctetString>::spec_from_value(cs[0]) {
            Some(f) => encryption_key_read_2(cs.skip(1), f_keytype, f),
            None => None,
        }
    } else {
        None
    }
}

/// Past the last field of a [`EncryptionKey`]: the children must be spent.
pub open spec fn encryption_key_read_2(cs: Seq<AsnValue>, f_keytype: u32, f_keyvalue: Seq<u8>) -> Option<EncryptionKeyView> {
    if cs.len() == 0 {
        Some(EncryptionKeyView {
            keytype: f_keytype,
            keyvalue: f_keyvalue,
        })
    } else {
        None
    }
}

impl Asn1Data for EncryptionKey {
    open spec fn view_wf(v: EncryptionKeyView) -> bool {
        Tag::<0, Integer>::view_wf(v.keytype)
            && Tag::<1, OctetString>::view_wf(v.keyvalue)
    }

    open spec fn spec_to_value(v: EncryptionKeyView) -> AsnValue {
        AsnValue::Sequence(encryption_key_write_0(v))
    }

    open spec fn spec_from_value(a: AsnValue) -> Option<EncryptionKeyView> {
        match a {
            AsnValue::Sequence(cs) => encryption_key_read_0(cs),
            _ => None,
        }
    }

    fn to_value(&self) -> (r: Asn1Value) {
        let ghost v = self.deep_view();
        let mut children: Vec<Asn1Value> = Vec::new();
        let ghost mut gc: Seq<AsnValue> = Seq::empty();
        proof {
            assert(crate::der::view_list(children@) =~= gc);
            lemma_nil_concat(encryption_key_write_0(v));
            assert(encryption_key_write_0(v) == gc + encryption_key_write_0(v));
        }
        let ghost ch_prev0 = children@;
        let ghost gc_prev0 = gc;
        children.push(self.keytype.to_value());
        proof {
            assert(children@.drop_last() =~= ch_prev0);
            gc = gc.push(Tag::<0, Integer>::spec_to_value(self.keytype.deep_view()));
            assert(crate::der::view_list(children@) == gc);
            assert(encryption_key_write_0(v) == seq![Tag::<0, Integer>::spec_to_value(self.keytype.deep_view())] + encryption_key_write_1(v));
            lemma_snoc_concat(gc_prev0, Tag::<0, Integer>::spec_to_value(self.keytype.deep_view()), encryption_key_write_1(v));
            assert(encryption_key_write_0(v) == gc + encryption_key_write_1(v));
        }
        let ghost ch_prev1 = children@;
        let ghost gc_prev1 = gc;
        children.push(self.keyvalue.to_value());
        proof {
            assert(children@.drop_last() =~= ch_prev1);
            gc = gc.push(Tag::<1, OctetString>::spec_to_value(self.keyvalue.deep_view()));
            assert(crate::der::view_list(children@) == gc);
            assert(encryption_key_write_1(v) == seq![Tag::<1, OctetString>::spec_to_value(self.keyvalue.deep_view())] + encryption_key_write_2(v));
            lemma_snoc_concat(gc_prev1, Tag::<1, OctetString>::spec_to_value(self.keyvalue.deep_view()), encryption_key_write_2(v));
            assert(encryption_key_write_0(v) == gc + encryption_key_write_2(v));
        }
        proof {
            assert(encryption_key_write_2(v) == Seq::<AsnValue>::empty());
            lemma_concat_nil(gc);
            assert(AsnValue::Sequence(gc) == Self::spec_to_value(v));
        }
        Asn1Value::Sequence(children)
    }

    fn from_value(a: &Asn1Value) -> (r: Result<Self, KerlabError>) {
        match a {
            Asn1Value::Sequence(cs) => {
                proof {
                    crate::der::lemma_view_list(cs@);
                }
                let ghost vl = crate::der::view_list(cs@);
                proof {
                    assert(vl.skip(0) =~= vl);
                    assert(Self::spec_from_value(a@) == encryption_key_read_0(vl.skip(0)));
                }
                let n = cs.len();
                let mut i: usize = 0;
                if i >= n {
                    proof {
                        assert(vl.skip(i as int).len() == 0);
                    }
                    return Err(KerlabError::new(KerlabErrorKind::Parsing, "missing field"));
                }
                proof {
                    assert(vl.skip(i as int)[0] == vl[i as int]);
                    assert(vl[i as int] == cs@[i as int]@);
                }
                let f_keytype = match Tag::<0, Integer>::from_value(&cs[i]) {
                    Ok(x) => x,
                    Err(e) => {
                        return Err(e);
                    },
                };
                proof {
                    lemma_skip_skip(vl, i as int);
                }
                i += 1;
                proof {
                    assert(Self::spec_from_value(a@) == encryption_key_read_1(vl.skip(i as int), f_keytype.deep_view()));
                }
                if i >= n {
                    proof {
                        assert(vl.skip(i as int).len() == 0);
                    }
                    return Err(KerlabError::new(KerlabErrorKind::Parsing, "missing field"));
                }
                proof {
                    assert(vl.skip(i as int)[0] == vl[i as int]);
                    assert(vl[i as int] == cs@[i as int]@);
                }
                let f_keyvalue = match Tag::<1, OctetString>::from_value(&cs[i]) {
                    Ok(x) => x,
                    Err(e) => {
                        return Err(e);
                    },
                };
                proof {
                    lemma_skip_skip(vl, i as int);
                }
                i += 1;
                proof {
                    assert(Self::spec_from_value(a@) == encryption_key_read_2(vl.skip(i as int), f_keytype.deep_view(), f_keyvalue.deep_view()));
                }
                if i != n {
                    return Err(KerlabError::new(KerlabErrorKind::Parsing, "unexpected extra field"));
                }
                proof {
                    assert(vl.skip(i as int).len() == 0);
                }
                Ok(EncryptionKey {
                    keytype: f_keytype,
                    keyvalue: f_keyvalue,
                })
            },
            _ => Err(KerlabError::new(KerlabErrorKind::Parsing, "expected a sequence")),
        }
    }

    proof fn lemma_round_trip(v: EncryptionKeyView) {
        encryption_key_rt_0(v);
        assert(Self::spec_from_value(Self::spec_to_value(v)) == Some(v));
    }
}

/// Reading no children past the last field yields the view back.
proof fn encryption_key_rt_2(v: EncryptionKeyView)
    requires
        EncryptionKey::view_wf(v),
    ensures
        encryption_key_read_2(encryption_key_write_2(v), v.keytype, v.keyvalue) == Some(v),
        forall|j: int| 0 <= j < encryption_key_write_2(v).len() ==> value_wf(#[trigger] encryption_key_write_2(v)[j]),
{
    assert(encryption_key_write_2(v).len() == 0);
    assert((EncryptionKeyView { keytype: v.keytype, keyvalue: v.keyvalue }) =~= v);
}

/// Reading the children written from field 1 on yields the view back.
proof fn encryption_key_rt_1(v: EncryptionKeyView)
    requires
        EncryptionKey::view_wf(v),
    ensures
        encryption_key_read_1(encryption_key_write_1(v), v.keytype) == Some(v),
        forall|j: int| 0 <= j < encryption_key_write_1(v).len() ==> value_wf(#[trigger] encryption_key_write_1(v)[j]),
{
    encryption_key_rt_2(v);
    Tag::<1, OctetString>::lemma_round_trip(v.keyvalue);
    assert(encryption_key_write_1(v) == seq![Tag::<1, OctetString>::spec_to_value(v.keyvalue)] + encryption_key_write_2(v));
    assert(encryption_key_write_1(v)[0] == Tag::<1, OctetString>::spec_to_value(v.keyvalue));
    assert(has_ctx(encryption_key_write_1(v)[0], 1));
    lemma_cons_skip(Tag::<1, OctetString>::spec_to_value(v.keyvalue), encryption_key_write_2(v));
    assert(encryption_key_read_1(encryption_key_write_1(v), v.keytype) == encryption_key_read_2(encryption_key_write_2(v), v.keytype, v.keyvalue));
    assert forall|j: int| 0 <= j < encryption_key_write_1(v).len() implies value_wf(#[trigger] encryption_key_write_1(v)[j]) by {
        if j >= 1 {
            assert(encryption_key_write_1(v)[j] == encryption_key_write_2(v)[j - 1]);
        }
    }
}

/// Reading the children written from field 0 on yields the view back.
proof fn encryption_key_rt_0(v: EncryptionKeyView)
    requires
        EncryptionKey::view_wf(v),
    ensures
        encryption_key_read_0(encryption_key_write_0(v)) == Some(v),
        forall|j: int| 0 <= j < encryption_key_write_0(v).len() ==> value_wf(#[trigger] encryption_key_write_0(v)[j]),
{
    encryption_key_rt_1(v);
    Tag::<0, Integer>::lemma_round_trip(v.keytype);
    assert(encryption_key_write_0(v) == seq![Tag::<0, Integer>::spec_to_value(v.keytype)] + encryption_key_write_1(v));
    assert(encryption_key_write_0(v)[0] == Tag::<0, Integer>::spec_to_value(v.keytype));
    assert(has_ctx(encryption_key_write_0(v)[0], 0));
    lemma_cons_skip(Tag::<0, Integer>::spec_to_value(v.keytype), encryption_key_write_1(v));
    assert(encryption_key_read_0(encryption_key_write_0(v)) == encryption_key_read_1(encryption_key_write_1(v), v.keytype));
    assert forall|j: int| 0 <= j < encryption_key_write_0(v).len() implies value_wf(#[trigger] encryption_key_write_0(v)[j]) by {
        if j >= 1 {
            assert(encryption_key_write_0(v)[j] == encryption_key_write_1(v)[j - 1]);
        }
    }
}

/// The encryption types the protocol names; the toolkit implements
/// NoEncryption and Rc4Hmac.
#[derive(Clone, Copy, Debug, PartialEq, Eq, Structural)]
pub enum EType {
    NoEncryption,
    DesCbcCrc,
    DesCbcMd5,
    Aes256CtsHmacSha196,
    Aes128CtsHmacSha196,
    Rc4Hmac,
    Rc4HmacExp,
}

impl EType {
    /// The integer this encryption type is identified by on the wire.
    pub open spec fn spec_value(&self) -> u32 {
        match self {
            EType::NoEncryption => 0,
            EType::DesCbcCrc => 1,
            EType::DesCbcMd5 => 3,
            EType::Aes256CtsHmacSha196 => 18,
            EType::Aes128CtsHmacSha196 => 17,
            EType::Rc4Hmac => 23,
            EType::Rc4HmacExp => 24,
        }
    }

    /// The integer this encryption type is identified by on the wire.
    pub fn value(&self) -> (r: u32)
        ensures
            r == self.spec_value(),
    {
        match self {
            EType::NoEncryption => 0,
            EType::DesCbcCrc => 1,
            EType::DesCbcMd5 => 3,
            EType::Aes256CtsHmacSha196 => 18,
            EType::Aes128CtsHmacSha196 => 17,
            EType::Rc4Hmac => 23,
            EType::Rc4HmacExp => 24,
        }
    }
}

/// The key-usage numbers that domain-separate RC4-HMAC invocations
/// (RFC 4757 section 3).
#[derive(Clone, Copy, Debug, PartialEq, Eq, Structural)]
pub enum KeyUsage {
    KeyUsageAsReqTimestamp,
    KeyUsageAsRepTicket,
    KeyUsageAsRepEncPart1,
    KrbKeyUsageTgsReqPaAuthenticator,
    KeyUsageAsRepEncPart,
}

impl KeyUsage {
    /// The key-usage integer.
    pub open spec fn spec_value(&self) -> u32 {
        match self {
            KeyUsage::KeyUsageAsReqTimestamp => 1,
            KeyUsage::KeyUsageAsRepTicket => 2,
            KeyUsage::KeyUsageAsRepEncPart1 => 3,
            KeyUsage::KrbKeyUsageTgsReqPaAuthenticator => 7,
            KeyUsage::KeyUsageAsRepEncPart => 8,
        }
    }

    /// The key-usage integer.
    pub fn value(&self) -> (r: u32)
        ensures
            r == self.spec_value(),
    {
        match self {
            KeyUsage::KeyUsageAsReqTimestamp => 1,
            KeyUsage::KeyUsageAsRepTicket => 2,
            KeyUsage::KeyUsageAsRepEncPart1 => 3,
            KeyUsage::KrbKeyUsageTgsReqPaAuthenticator => 7,
            KeyUsage::KeyUsageAsRepEncPart => 8,
        }
    }
}

impl EncryptedData {
    /// Wrap a ciphertext under its encryption type, with no key version.
    pub fn new(etype: Integer, cipher: OctetString) -> (r: Self)
        ensures
            r.deep_view() == (EncryptedDataView {
                etype,
                kvno: None,
                cipher: cipher.deep_view(),
            }),
    {
        EncryptedData { etype: Tag::new(etype), kvno: None, cipher: Tag::new(cipher) }
    }
}

impl EncryptionKey {
    /// Build a key from its type and raw bytes.
    pub fn new(keytype: EType, keyvalue: OctetString) -> (r: Self)
        ensures
            r.deep_view() == (EncryptionKeyView {
                keytype: keytype.spec_value(),
                keyvalue: keyvalue.deep_view(),
            }),
    {
        EncryptionKey { keytype: Tag::new(keytype.value()), keyvalue: Tag::new(keyvalue) }
    }

    /// The null-encryption key: ciphertexts under it are cleartext DER.
    pub fn new_no_encryption() -> (r: Self)
        ensures
            r.deep_view() == (EncryptionKeyView {
                keytype: EType::NoEncryption.spec_value(),
                keyvalue: Seq::<u8>::empty(),
            }),
    {
        EncryptionKey { keytype: Tag::new(0), keyvalue: Tag::new(OctetString::new()) }
    }
}

/// What decrypting an `EncryptedData` under a key yields, before parsing:
/// cleartext DER for null encryption, the RC4-HMAC opening for RC4-HMAC,
/// nothing for a mismatched or unsupported encryption type.
pub open spec fn spec_open_cipher(
    key: EncryptionKeyView,
    usage: u32,
    data: EncryptedDataView,
) -> Option<Seq<u8>> {
    if data.etype != key.keytype {
        None
    } else if key.keytype == 0 {
        Some(data.cipher)
    } else if key.keytype == 23 {
        rc4hmac_open(key.keyvalue, usage, data.cipher)
    } else {
        None
    }
}

impl EncryptionKey {
    /// An RC4-HMAC key derived from a password: its NTLM hash.
    pub fn new_rc4_hmac(password: &str) -> (r: KerlabResult<Self>)
        ensures
            r matches Ok(k) && k.deep_view() == (EncryptionKeyView {
                keytype: EType::Rc4Hmac.spec_value(),
                keyvalue: md4_of(utf16le_of(password@)),
            }),
    {
        let hash = match ntlm(password) {
            Ok(h) => h,
            Err(e) => {
                return Err(e);
            },
        };
        Ok(
            EncryptionKey {
                keytype: Tag::new(23),
                keyvalue: Tag::new(OctetString::from_vec(hash)),
            },
        )
    }

    /// An RC4-HMAC key from a raw NTLM hash.
    pub fn new_rc4_hmac_from_hash(hash: Vec<u8>) -> (r: KerlabResult<Self>)
        ensures
            r matches Ok(k) && k.deep_view() == (EncryptionKeyView {
                keytype: EType::Rc4Hmac.spec_value(),
                keyvalue: hash@,
            }),
    {
        Ok(
            EncryptionKey {
                keytype: Tag::new(23),
                keyvalue: Tag::new(OctetString::from_vec(hash)),
            },
        )
    }

    /// Seal a message under this key for one usage: the DER of the message,
    /// stored as cleartext for null encryption or sealed with RC4-HMAC and a
    /// fresh confounder. Any other key type fails with a `Crypto` error.
    pub fn encrypt<T: Asn1Data>(&self, key_usage: KeyUsage, object: &T) -> (r: KerlabResult<
        EncryptedData,
    >)
        requires
            T::view_wf(object.deep_view()),
        ensures
            match r {
                Ok(ed) => {
                    &&& (self.deep_view().keytype == 0 || self.deep_view().keytype == 23)
                    &&& ed.deep_view().etype == self.deep_view().keytype
                    &&& ed.deep_view().kvno is None
                    &&& (self.deep_view().keytype == 0 ==> ed.deep_view().cipher == spec_to_der::<
                        T,
                    >(object.deep_view()))
                    &&& (self.deep_view().keytype == 23 ==> exists|conf: Seq<u8>|
                        conf.len() == 8 && ed.deep_view().cipher == rc4hmac_seal(
                            self.deep_view().keyvalue,
                            key_usage.spec_value(),
                            conf,
                            spec_to_der::<T>(object.deep_view()),
                        ))
                },
                Err(e) => {
                    &&& self.deep_view().keytype != 0
                    &&& self.deep_view().keytype != 23
                    &&& e.spec_kind() == KerlabErrorKind::Crypto
                },
            },
    {
        let keytype = self.keytype.inner;
        if keytype == 0 {
            Ok(EncryptedData::new(keytype, OctetString::from_vec(to_der(object))))
        } else if keytype == 23 {
            let key = vstd::slice::slice_to_vec(self.keyvalue.inner.data.as_slice());
            let mut cipher = Rc4Hmac::new(key, key_usage);
            let sealed = cipher.encrypt(to_der(object).as_slice());
            Ok(EncryptedData::new(keytype, OctetString::from_vec(sealed)))
        } else {
            Err(KerlabError::new(KerlabErrorKind::Crypto, "Unsupported Algorithm"))
        }
    }

    /// Open an `EncryptedData` under this key and parse the plaintext as
    /// `T`. A blob whose etype differs from the key fails with a `Crypto`
    /// error, an RC4-HMAC checksum mismatch with a `Kerberos` error, and
    /// unparsable plaintext with a `Parsing` error.
    pub fn decrypt<T: Asn1Data>(&self, key_usage: KeyUsage, data: &EncryptedData) -> (r:
        KerlabResult<T>)
        ensures
            match r {
                Ok(x) => {
                    &&& spec_open_cipher(
                        self.deep_view(),
                        key_usage.spec_value(),
                        data.deep_view(),
                    ) matches Some(pt) && spec_from_bytes::<T>(pt) == Some(x.deep_view())
                    &&& T::view_wf(x.deep_view())
                },
                Err(e) => if data.deep_view().etype != self.deep_view().keytype {
                    e.spec_kind() == KerlabErrorKind::Crypto
                } else if self.deep_view().keytype != 0 && self.deep_view().keytype != 23 {
                    e.spec_kind() == KerlabErrorKind::Crypto
                } else if self.deep_view().keytype == 23 && rc4hmac_open(
                    self.deep_view().keyvalue,
                    key_usage.spec_value(),
                    data.deep_view().cipher,
                ) is None {
                    e.spec_kind() == KerlabErrorKind::Kerberos
                } else {
                    &&& spec_open_cipher(
                        self.deep_view(),
                        key_usage.spec_value(),
                        data.deep_view(),
                    ) matches Some(pt) && spec_from_bytes::<T>(pt) is None
                    &&& e.spec_kind() == KerlabErrorKind::Parsing
                },
            },
    {
        if self.keytype.inner != data.etype.inner {
            return Err(KerlabError::new(KerlabErrorKind::Crypto, "Bad Key"));
        }
        let keytype = self.keytype.inner;
        if keytype == 0 {
            from_ber(data.cipher.inner.data.as_slice())
        } else if keytype == 23 {
            let key = vstd::slice::slice_to_vec(self.keyvalue.inner.data.as_slice());
            let mut cipher = Rc4Hmac::new(key, key_usage);
            let plaintext = match cipher.decrypt(data.cipher.inner.data.as_slice()) {
                Ok(p) => p,
                Err(e) => {
                    return Err(e);
                },
            };
            from_ber(plaintext.as_slice())
        } else {
            Err(KerlabError::new(KerlabErrorKind::Crypto, "Unsupported Algorithm"))
        }
    }
}

impl EncryptedData {
    /// Open this blob with a key derived from a password and parse the
    /// plaintext as `T`: an unsupported etype fails with a `Crypto` error,
    /// a failed RC4-HMAC opening with a `Kerberos` error, and unparsable
    /// plaintext with a `Parsing` error — and only on those inputs.
    pub fn decrypt_as<T: Asn1Data>(&self, password: &str, key_usage: KeyUsage) -> (r: KerlabResult<
        T,
    >)
        ensures
            match r {
                Ok(x) => {
                    &&& spec_open_cipher(
                        EncryptionKeyView {
                            keytype: self.deep_view().etype,
                            keyvalue: md4_of(utf16le_of(password@)),
                        },
                        key_usage.spec_value(),
                        self.deep_view(),
                    ) matches Some(pt) && spec_from_bytes::<T>(pt) == Some(x.deep_view())
                    &&& T::view_wf(x.deep_view())
                    &&& (self.deep_view().etype == 0 || self.deep_view().etype == 23)
                },
                Err(e) => if self.deep_view().etype != 0 && self.deep_view().etype != 23 {
                    e.spec_kind() == KerlabErrorKind::Crypto
                } else if self.deep_view().etype == 23 && rc4hmac_open(
                    md4_of(utf16le_of(password@)),
                    key_usage.spec_value(),
                    self.deep_view().cipher,
                ) is None {
                    e.spec_kind() == KerlabErrorKind::Kerberos
                } else {
                    &&& spec_open_cipher(
                        EncryptionKeyView {
                            keytype: self.deep_view().etype,
                            keyvalue: md4_of(utf16le_of(password@)),
                        },
                        key_usage.spec_value(),
                        self.deep_view(),
                    ) matches Some(pt) && spec_from_bytes::<T>(pt) is None
                    &&& e.spec_kind() == KerlabErrorKind::Parsing
                },
            },
    {
        let etype = self.etype.inner;
        if etype == 0 {
            from_ber(self.cipher.inner.data.as_slice())
        } else if etype == 23 {
            let hash = match ntlm(password) {
                Ok(h) => h,
                Err(e) => {
                    return Err(e);
                },
            };
            let mut cipher = Rc4Hmac::new(hash, key_usage);
            let plaintext = match cipher.decrypt(self.cipher.inner.data.as_slice()) {
                Ok(p) => p,
                Err(e) => {
                    return Err(e);
                },
            };
            from_ber(plaintext.as_slice())
        } else {
            Err(KerlabError::new(KerlabErrorKind::Crypto, "Unsupported Algorithm"))
        }
    }
}

/// Sealing a message under an RC4-HMAC key and opening the envelope again
/// yields the message back, whatever confounder was drawn.
pub proof fn lemma_envelope_round_trip<T: Asn1Data>(
    key: EncryptionKeyView,
    usage: u32,
    conf: Seq<u8>,
    v: T::V,
)
    requires
        conf.len() == 8,
        T::view_wf(v),
        spec_to_der::<T>(v).len() < 0x1_0000_0000_0000_0000,
        key.keytype == EType::Rc4Hmac.spec_value(),
    ensures
        ({
            let sealed = EncryptedDataView {
                etype: key.keytype,
                kvno: None,
                cipher: rc4hmac_seal(key.keyvalue, usage, conf, spec_to_der::<T>(v)),
            };
            spec_open_cipher(key, usage, sealed) matches Some(pt) && spec_from_bytes::<T>(pt)
                == Some(v)
        }),
{
    crate::rc4hmac::lemma_rc4hmac_round_trip(key.keyvalue, usage, conf, spec_to_der::<T>(v));
    crate::asn1::lemma_der_round_trip::<T>(v);
}

/// Optional skipping: a value without its OPTIONAL `kvno` reads back from
/// an encoding in which the field simply does not occur, and writing the
/// same value with the field present takes strictly more bytes.
pub proof fn lemma_optional_skipping(v: EncryptedDataView, k: u32)
    requires
        v.kvno is None,
        spec_to_der::<EncryptedData>(v).len() < 0x1_0000_0000_0000_0000,
    ensures
        crate::asn1::spec_from_bytes::<EncryptedData>(spec_to_der::<EncryptedData>(v)) == Some(v),
        spec_to_der::<EncryptedData>(
            EncryptedDataView { etype: v.etype, kvno: Some(k), cipher: v.cipher },
        ).len() > spec_to_der::<EncryptedData>(v).len(),
{
    crate::asn1::lemma_der_round_trip::<EncryptedData>(v);
    let w = EncryptedDataView { etype: v.etype, kvno: Some(k), cipher: v.cipher };
    let e0 = Tag::<0, Integer>::spec_to_value(v.etype);
    let e1 = Tag::<1, Integer>::spec_to_value(k);
    let e2 = Tag::<2, OctetString>::spec_to_value(v.cipher);
    assert(encrypted_data_write_2(v) =~= seq![e2]);
    assert(encrypted_data_write_2(w) =~= seq![e2]);
    assert(encrypted_data_write_0(v) =~= seq![e0, e2]);
    assert(encrypted_data_write_0(w) =~= seq![e0, e1, e2]);
    let without = crate::der::enc_list(encrypted_data_write_0(v));
    let with_field = crate::der::enc_list(encrypted_data_write_0(w));
    crate::asn1::lemma_cons_skip(e0, seq![e2]);
    crate::asn1::lemma_cons_skip(e0, seq![e1, e2]);
    assert(seq![e0, e2].skip(1) =~= seq![e2]);
    assert(seq![e0, e1, e2].skip(1) =~= seq![e1, e2]);
    assert(seq![e1, e2].skip(1) =~= seq![e2]);
    assert(seq![e2].skip(1) =~= Seq::<crate::der::AsnValue>::empty());
    assert(crate::der::enc_list(Seq::<crate::der::AsnValue>::empty()) =~= Seq::<u8>::empty());
    assert(crate::der::enc_list(seq![e2]) =~= crate::der::enc(e2));
    assert(without =~= crate::der::enc(e0) + crate::der::enc(e2));
    assert(crate::der::enc_list(seq![e1, e2]) =~= crate::der::enc(e1) + crate::der::enc(e2));
    assert(with_field =~= crate::der::enc(e0) + (crate::der::enc(e1) + crate::der::enc(e2)));
    assert(with_field.len() == crate::der::enc(e0).len() + crate::der::enc(e1).len()
        + crate::der::enc(e2).len());
    assert(without.len() == crate::der::enc(e0).len() + crate::der::enc(e2).len());
    crate::der::lemma_enc_ge_2(e1);
    crate::der::lemma_tlv_len_monotone(48, without, with_field);
}

} // verus!