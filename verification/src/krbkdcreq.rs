//! The KDC request messages: AS-REQ and TGS-REQ share the KDC-REQ shape
//! of RFC 1510 section 5.4.1, and the KDC option flags they carry.

use vstd::prelude::*;

verus! {

use crate::asn1::{
    Asn1Data, lemma_concat_nil, lemma_cons_skip, lemma_nil_concat, lemma_skip_skip, lemma_snoc_concat, BitStringView, GeneralString, Integer, OctetString, SequenceOf, SInteger, Tag,
    has_ctx, is_ctx,
};
use crate::base::{KerberosTime, MessageType, PrincipalNameType, Realm};
use crate::asn1::{ascii_bytes, BitString};
use crate::clock::now_plus_days;
use crate::encryption::EncryptionKey;
use crate::error::KerlabResult;
use crate::krbap::ApReq;
use crate::padata::{PaDataType, PaForUserView};
use crate::rnd::nonce;
use crate::der::{AsnValue, Asn1Value, GeneralizedTime, value_wf};
use crate::error::{KerlabError, KerlabErrorKind};

use crate::asn1::Application;
use crate::base::{
    HostAddresses, HostAddressView, KDCOptions, PrincipalName, PrincipalNameView,
};
use crate::encryption::{EncryptedData, EncryptedDataView};
use crate::padata::{PaData, PaDataView};
use crate::ticket::{Ticket, TicketBodyView};

/// A KDC request (`pvno[1] INTEGER, msg-type[2] INTEGER, padata[3] SEQUENCE OF PA-DATA OPTIONAL, req-body[4] KDC-REQ-BODY`).
#[derive(Debug, Clone, PartialEq, Default)]
pub struct KdcReq {
    pub pvno: Tag<1, Integer>,
    pub msg_type: Tag<2, Integer>,
    pub padata: Option<Tag<3, SequenceOf<PaData>>>,
    pub req_body: Tag<4, KdcReqBody>,
}

/// The deep view of [`KdcReq`].
#[verifier::ext_equal]
pub struct KdcReqView {
    pub pvno: u32,
    pub msg_type: u32,
    pub padata: Option<Seq<PaDataView>>,
    pub req_body: KdcReqBodyView,
}

impl DeepView for KdcReq {
    type V = KdcReqView;

    open spec fn deep_view(&self) -> KdcReqView {
        KdcReqView {
            pvno: self.pvno.deep_view(),
            msg_type: self.msg_type.deep_view(),
            padata: self.padata.deep_view(),
            req_body: self.req_body.deep_view(),
        }
    }
}

/// The children a [`KdcReq`] writes from its field 0 on.
pub open spec fn kdc_req_write_0(v: KdcReqView) -> Seq<AsnValue> {
    seq![Tag::<1, Integer>::spec_to_value(v.pvno)] + kdc_req_write_1(v)
}

/// The children a [`KdcReq`] writes from its field 1 on.
pub open spec fn kdc_req_write_1(v: KdcReqView) -> Seq<AsnValue> {
    seq![Tag::<2, Integer>::spec_to_value(v.msg_type)] + kdc_req_write_2(v)
}

/// The children a [`KdcReq`] writes from its field 2 on.
pub open spec fn kdc_req_write_2(v: KdcReqView) -> Seq<AsnValue> {
    match v.padata {
        Some(x) => seq![Tag::<3, SequenceOf<PaData>>::spec_to_value(x)] + kdc_req_write_3(v),
        None => kdc_req_write_3(v),
    }
}

/// The children a [`KdcReq`] writes from its field 3 on.
pub open spec fn kdc_req_write_3(v: KdcReqView) -> Seq<AsnValue> {
    seq![Tag::<4, KdcReqBody>::spec_to_value(v.req_body)] + kdc_req_write_4(v)
}

/// The children a [`KdcReq`] writes past its last field: none.
pub open spec fn kdc_req_write_4(v: KdcReqView) -> Seq<AsnValue> {
    Seq::empty()
}

/// Read the fields of a [`KdcReq`] from field 0 on.
pub open spec fn kdc_req_read_0(cs: Seq<AsnValue>) -> Option<KdcReqView> {
    if cs.len() > 0 {
        match Tag::<1, Integer>::spec_from_value(cs[0]) {
            Some(f) => kdc_req_read_1(cs.skip(1), f),
            None => None,
        }
    } else {
        None
    }
}

/// Read the fields of a [`KdcReq`] from field 1 on.
pub open spec fn kdc_req_read_1(cs: Seq<AsnValue>, f_pvno: u32) -> Option<KdcReqView> {
    if cs.len() > 0 {
        match Tag::<2, Integer>::spec_from_value(cs[0]) {
            Some(f) => kdc_req_read_2(cs.skip(1), f_pvno, f),
            None => None,
        }
    } else {
        None
    }
}

/// Read the fields of a [`KdcReq`] from field 2 on.
pub open spec fn kdc_req_read_2(cs: Seq<AsnValue>, f_pvno: u32, f_msg_type: u32) -> Option<KdcReqView> {
    if cs.len() > 0 && has_ctx(cs[0], 3) {
        match Tag::<3, SequenceOf<PaData>>::spec_from_value(cs[0]) {
            Some(f) => kdc_req_read_3(cs.skip(1), f_pvno, f_msg_type, Some(f)),
            None => None,
        }
    } else {
        kdc_req_read_3(cs, f_pvno, f_msg_type, None::<Seq<PaDataView>>)
    }
}

/// Read the fields of a [`KdcReq`] from field 3 on.
pub open spec fn kdc_req_read_3(cs: Seq<AsnValue>, f_pvno: u32, f_msg_type: u32, f_padata: Option<Seq<PaDataView>>) -> Option<KdcReqView> {
    if cs.len() > 0 {
        match Tag::<4, KdcReqBody>::spec_from_value(cs[0]) {
            Some(f) => kdc_req_read_4(cs.skip(1), f_pvno, f_msg_type, f_padata, f),
            None => None,
        }
    } else {
        None
    }
}

/// Past the last field of a [`KdcReq`]: the children must be spent.
pub open spec fn kdc_req_read_4(cs: Seq<AsnValue>, f_pvno: u32, f_msg_type: u32, f_padata: Option<Seq<PaDataView>>, f_req_body: KdcReqBodyView) -> Option<KdcReqView> {
    if cs.len() == 0 {
        Some(KdcReqView {
            pvno: f_pvno,
            msg_type: f_msg_type,
            padata: f_padata,
            req_body: f_req_body,
        })
    } else {
        None
    }
}

impl Asn1Data for KdcReq {
    open spec fn view_wf(v: KdcReqView) -> bool {
        Tag::<1, Integer>::view_wf(v.pvno)
            && Tag::<2, Integer>::view_wf(v.msg_type)
            && (match v.padata {
            Some(x) => Tag::<3, SequenceOf<PaData>>::view_wf(x),
            None => true,
        })
            && Tag::<4, KdcReqBody>::view_wf(v.req_body)
    }

    open spec fn spec_to_value(v: KdcReqView) -> AsnValue {
        AsnValue::Sequence(kdc_req_write_0(v))
    }

    open spec fn spec_from_value(a: AsnValue) -> Option<KdcReqView> {
        match a {
            AsnValue::Sequence(cs) => kdc_req_read_0(cs),
            _ => None,
        }
    }

    fn to_value(&self) -> (r: Asn1Value) {
        let ghost v = self.deep_view();
        let mut children: Vec<Asn1Value> = Vec::new();
        let ghost mut gc: Seq<AsnValue> = Seq::empty();
        proof {
            assert(crate::der::view_list(children@) =~= gc);
            lemma_nil_concat(kdc_req_write_0(v));
            assert(kdc_req_write_0(v) == gc + kdc_req_write_0(v));
        }
        let ghost ch_prev0 = children@;
        let ghost gc_prev0 = gc;
        children.push(self.pvno.to_value());
        proof {
            assert(children@.drop_last() =~= ch_prev0);
            gc = gc.push(Tag::<1, Integer>::spec_to_value(self.pvno.deep_view()));
            assert(crate::der::view_list(children@) == gc);
            assert(kdc_req_write_0(v) == seq![Tag::<1, Integer>::spec_to_value(self.pvno.deep_view())] + kdc_req_write_1(v));
            lemma_snoc_concat(gc_prev0, Tag::<1, Integer>::spec_to_value(self.pvno.deep_view()), kdc_req_write_1(v));
            assert(kdc_req_write_0(v) == gc + kdc_req_write_1(v));
        }
        let ghost ch_prev1 = children@;
        let ghost gc_prev1 = gc;
        children.push(self.msg_type.to_value());
        proof {
            assert(children@.drop_last() =~= ch_prev1);
            gc = gc.push(Tag::<2, Integer>::spec_to_value(self.msg_type.deep_view()));
            assert(crate::der::view_list(children@) == gc);
            assert(kdc_req_write_1(v) == seq![Tag::<2, Integer>::spec_to_value(self.msg_type.deep_view())] + kdc_req_write_2(v));
            lemma_snoc_concat(gc_prev1, Tag::<2, Integer>::spec_to_value(self.msg_type.deep_view()), kdc_req_write_2(v));
            assert(kdc_req_write_0(v) == gc + kdc_req_write_2(v));
        }
        match &self.padata {
            Some(x) => {
                let ghost ch_prev = children@;
                let ghost gc_prev = gc;
                children.push(x.to_value());
                proof {
                    assert(children@.drop_last() =~= ch_prev);
                    gc = gc.push(Tag::<3, SequenceOf<PaData>>::spec_to_value(x.deep_view()));
                    assert(crate::der::view_list(children@) == gc);
                    assert(kdc_req_write_2(v) == seq![Tag::<3, SequenceOf<PaData>>::spec_to_value(x.deep_view())] + kdc_req_write_3(v));
                    lemma_snoc_concat(gc_prev, Tag::<3, SequenceOf<PaData>>::spec_to_value(x.deep_view()), kdc_req_write_3(v));
                    assert(kdc_req_write_0(v) == gc + kdc_req_write_3(v));
                }
            },
            None => {
                proof {
                    assert(kdc_req_write_2(v) == kdc_req_write_3(v));
                    assert(kdc_req_write_0(v) == gc + kdc_req_write_3(v));
                }
            },
        }
        let ghost ch_prev3 = children@;
        let ghost gc_prev3 = gc;
        children.push(self.req_body.to_value());
        proof {
            assert(children@.drop_last() =~= ch_prev3);
            gc = gc.push(Tag::<4, KdcReqBody>::spec_to_value(self.req_body.deep_view()));
            assert(crate::der::view_list(children@) == gc);
            assert(kdc_req_write_3(v) == seq![Tag::<4, KdcReqBody>::spec_to_value(self.req_body.deep_view())] + kdc_req_write_4(v));
            lemma_snoc_concat(gc_prev3, Tag::<4, KdcReqBody>::spec_to_value(self.req_body.deep_view()), kdc_req_write_4(v));
            assert(kdc_req_write_0(v) == gc + kdc_req_write_4(v));
        }
        proof {
            assert(kdc_req_write_4(v) == Seq::<AsnValue>::empty());
            lemma_concat_nil(gc);
            assert(AsnValue::Sequence(gc) == Self::spec_to_value(v));
        }
        Asn1Value::Sequence(children)
    }

    fn from_value(a: &Asn1Value) -> (r: Result<Self, KerlabError>) {
        match a {
            Asn1Value::Sequence(cs) => {
                proof {
                    crate::der::lemma_view_list(cs@);
                }
                let ghost vl = crate::der::view_list(cs@);
                proof {
                    assert(vl.skip(0) =~= vl);
                    assert(Self::spec_from_value(a@) == kdc_req_read_0(vl.skip(0)));
                }
                let n = cs.len();
                let mut i: usize = 0;
                if i >= n {
                    proof {
                        assert(vl.skip(i as int).len() == 0);
                    }
                    return Err(KerlabError::new(KerlabErrorKind::Parsing, "missing field"));
                }
                proof {
                    assert(vl.skip(i as int)[0] == vl[i as int]);
                    assert(vl[i as int] == cs@[i as int]@);
                }
                let f_pvno = match Tag::<1, Integer>::from_value(&cs[i]) {
                    Ok(x) => x,
                    Err(e) => {
                        return Err(e);
                    },
                };
                proof {
                    lemma_skip_skip(vl, i as int);
                }
                i += 1;
                proof {
                    assert(Self::spec_from_value(a@) == kdc_req_read_1(vl.skip(i as int), f_pvno.deep_view()));
                }
                if i >= n {
                    proof {
                        assert(vl.skip(i as int).len() == 0);
                    }
                    return Err(KerlabError::new(KerlabErrorKind::Parsing, "missing field"));
                }
                proof {
                    assert(vl.skip(i as int)[0] == vl[i as int]);
                    assert(vl[i as int] == cs@[i as int]@);
                }
                let f_msg_type = match Tag::<2, Integer>::from_value(&cs[i]) {
                    Ok(x) => x,
                    Err(e) => {
                        return Err(e);
                    },
                };
                proof {
                    lemma_skip_skip(vl, i as int);
                }
                i += 1;
                proof {
                    assert(Self::spec_from_value(a@) == kdc_req_read_2(vl.skip(i as int), f_pvno.deep_view(), f_msg_type.deep_view()));
                }
                let mut f_padata: Option<Tag<3, SequenceOf<PaData>>> = None;
                if i < n && is_ctx(&cs[i], 3) {
                    proof {
                        assert(vl.skip(i as int)[0] == vl[i as int]);
                        assert(vl[i as int] == cs@[i as int]@);
                    }
                    match Tag::<3, SequenceOf<PaData>>::from_value(&cs[i]) {
                        Ok(x) => {
                            proof {
                                lemma_skip_skip(vl, i as int);
                            }
                            f_padata = Some(x);
                            i += 1;
                        },
                        Err(e) => {
                            return Err(e);
                        },
                    }
                } else {
                    proof {
                        if i < n {
                            assert(vl.skip(i as int)[0] == vl[i as int]);
                            assert(vl[i as int] == cs@[i as int]@);
                        }
                    }
                }
                proof {
                    assert(Self::spec_from_value(a@) == kdc_req_read_3(vl.skip(i as int), f_pvno.deep_view(), f_msg_type.deep_view(), f_padata.deep_view()));
                }
                if i >= n {
                    proof {
                        assert(vl.skip(i as int).len() == 0);
                    }
                    return Err(KerlabError::new(KerlabErrorKind::Parsing, "missing field"));
                }
                proof {
                    assert(vl.skip(i as int)[0] == vl[i as int]);
                    assert(vl[i as int] == cs@[i as int]@);
                }
                let f_req_body = match Tag::<4, KdcReqBody>::from_value(&cs[i]) {
                    Ok(x) => x,
                    Err(e) => {
                        return Err(e);
                    },
                };
                proof {
                    lemma_skip_skip(vl, i as int);
                }
                i += 1;
                proof {
                    assert(Self::spec_from_value(a@) == kdc_req_read_4(vl.skip(i as int), f_pvno.deep_view(), f_msg_type.deep_view(), f_padata.deep_view(), f_req_body.deep_view()));
                }
                if i != n {
                    return Err(KerlabError::new(KerlabErrorKind::Parsing, "unexpected extra field"));
                }
                proof {
                    assert(vl.skip(i as int).len() == 0);
                }
                Ok(KdcReq {
                    pvno: f_pvno,
                    msg_type: f_msg_type,
                    padata: f_padata,
                    req_body: f_req_body,
                })
            },
            _ => Err(KerlabError::new(KerlabErrorKind::Parsing, "expected a sequence")),
        }
    }

    proof fn lemma_round_trip(v: KdcReqView) {
        kdc_req_rt_0(v);
        assert(Self::spec_from_value(Self::spec_to_value(v)) == Some(v));
    }
}

/// Reading no children past the last field yields the view back.
proof fn kdc_req_rt_4(v: KdcReqView)
    requires
        KdcReq::view_wf(v),
    ensures
        kdc_req_read_4(kdc_req_write_4(v), v.pvno, v.msg_type, v.padata, v.req_body) == Some(v),
        forall|j: int| 0 <= j < kdc_req_write_4(v).len() ==> value_wf(#[trigger] kdc_req_write_4(v)[j]),
{
    assert(kdc_req_write_4(v).len() == 0);
    assert((KdcReqView { pvno: v.pvno, msg_type: v.msg_type, padata: v.padata, req_body: v.req_body }) =~= v);
}

/// Reading the children written from field 3 on yields the view back.
proof fn kdc_req_rt_3(v: KdcReqView)
    requires
        KdcReq::view_wf(v),
    ensures
        kdc_req_read_3(kdc_req_write_3(v), v.pvno, v.msg_type, v.padata) == Some(v),
        forall|j: int| 0 <= j < kdc_req_write_3(v).len() ==> value_wf(#[trigger] kdc_req_write_3(v)[j]),
{
    kdc_req_rt_4(v);
    Tag::<4, KdcReqBody>::lemma_round_trip(v.req_body);
    assert(kdc_req_write_3(v) == seq![Tag::<4, KdcReqBody>::spec_to_value(v.req_body)] + kdc_req_write_4(v));
    assert(kdc_req_write_3(v)[0] == Tag::<4, KdcReqBody>::spec_to_value(v.req_body));
    assert(has_ctx(kdc_req_write_3(v)[0], 4));
    lemma_cons_skip(Tag::<4, KdcReqBody>::spec_to_value(v.req_body), kdc_req_write_4(v));
    assert(kdc_req_read_3(kdc_req_write_3(v), v.pvno, v.msg_type, v.padata) == kdc_req_read_4(kdc_req_write_4(v), v.pvno, v.msg_type, v.padata, v.req_body));
    assert forall|j: int| 0 <= j < kdc_req_write_3(v).len() implies value_wf(#[trigger] kdc_req_write_3(v)[j]) by {
        if j >= 1 {
            assert(kdc_req_write_3(v)[j] == kdc_req_write_4(v)[j - 1]);
        }
    }
}

/// Reading the children written from field 2 on yields the view back.
proof fn kdc_req_rt_2(v: KdcReqView)
    requires
        KdcReq::view_wf(v),
    ensures
        kdc_req_read_2(kdc_req_write_2(v), v.pvno, v.msg_type) == Some(v),
        forall|j: int| 0 <= j < kdc_req_write_2(v).len() ==> value_wf(#[trigger] kdc_req_write_2(v)[j]),
{
    kdc_req_rt_3(v);
    match v.padata {
        Some(x) => {
            Tag::<3, SequenceOf<PaData>>::lemma_round_trip(x);
            assert(kdc_req_write_2(v) == seq![Tag::<3, SequenceOf<PaData>>::spec_to_value(x)] + kdc_req_write_3(v));
            assert(kdc_req_write_2(v)[0] == Tag::<3, SequenceOf<PaData>>::spec_to_value(x));
            assert(has_ctx(kdc_req_write_2(v)[0], 3));
            lemma_cons_skip(Tag::<3, SequenceOf<PaData>>::spec_to_value(x), kdc_req_write_3(v));
            assert(kdc_req_read_2(kdc_req_write_2(v), v.pvno, v.msg_type) == kdc_req_read_3(kdc_req_write_3(v), v.pvno, v.msg_type, Some(x)));
            assert forall|j: int| 0 <= j < kdc_req_write_2(v).len() implies value_wf(#[trigger] kdc_req_write_2(v)[j]) by {
                if j >= 1 {
                    assert(kdc_req_write_2(v)[j] == kdc_req_write_3(v)[j - 1]);
                }
            }
        },
        None => {
            assert(kdc_req_write_2(v) == kdc_req_write_3(v));
            if kdc_req_write_3(v).len() > 0 {
                assert(!has_ctx(kdc_req_write_3(v)[0], 3));
            }
            assert(kdc_req_read_2(kdc_req_write_2(v), v.pvno, v.msg_type) == kdc_req_read_3(kdc_req_write_3(v), v.pvno, v.msg_type, None::<Seq<PaDataView>>));
        },
    }
}

/// Reading the children written from field 1 on yields the view back.
proof fn kdc_req_rt_1(v: KdcReqView)
    requires
        KdcReq::view_wf(v),
    ensures
        kdc_req_read_1(kdc_req_write_1(v), v.pvno) == Some(v),
        forall|j: int| 0 <= j < kdc_req_write_1(v).len() ==> value_wf(#[trigger] kdc_req_write_1(v)[j]),
{
    kdc_req_rt_2(v);
    Tag::<2, Integer>::lemma_round_trip(v.msg_type);
    assert(kdc_req_write_1(v) == seq![Tag::<2, Integer>::spec_to_value(v.msg_type)] + kdc_req_write_2(v));
    assert(kdc_req_write_1(v)[0] == Tag::<2, Integer>::spec_to_value(v.msg_type));
    assert(has_ctx(kdc_req_write_1(v)[0], 2));
    lemma_cons_skip(Tag::<2, Integer>::spec_to_value(v.msg_type), kdc_req_write_2(v));
    assert(kdc_req_read_1(kdc_req_write_1(v), v.pvno) == kdc_req_read_2(kdc_req_write_2(v), v.pvno, v.msg_type));
    assert forall|j: int| 0 <= j < kdc_req_write_1(v).len() implies value_wf(#[trigger] kdc_req_write_1(v)[j]) by {
        if j >= 1 {
            assert(kdc_req_write_1(v)[j] == kdc_req_write_2(v)[j - 1]);
        }
    }
}

/// Reading the children written from field 0 on yields the view back.
proof fn kdc_req_rt_0(v: KdcReqView)
    requires
        KdcReq::view_wf(v),
    ensures
        kdc_req_read_0(kdc_req_write_0(v)) == Some(v),
        forall|j: int| 0 <= j < kdc_req_write_0(v).len() ==> value_wf(#[trigger] kdc_req_write_0(v)[j]),
{
    kdc_req_rt_1(v);
    Tag::<1, Integer>::lemma_round_trip(v.pvno);
    assert(kdc_req_write_0(v) == seq![Tag::<1, Integer>::spec_to_value(v.pvno)] + kdc_req_write_1(v));
    assert(kdc_req_write_0(v)[0] == Tag::<1, Integer>::spec_to_value(v.pvno));
    assert(has_ctx(kdc_req_write_0(v)[0], 1));
    lemma_cons_skip(Tag::<1, Integer>::spec_to_value(v.pvno), kdc_req_write_1(v));
    assert(kdc_req_read_0(kdc_req_write_0(v)) == kdc_req_read_1(kdc_req_write_1(v), v.pvno));
    assert forall|j: int| 0 <= j < kdc_req_write_0(v).len() implies value_wf(#[trigger] kdc_req_write_0(v)[j]) by {
        if j >= 1 {
            assert(kdc_req_write_0(v)[j] == kdc_req_write_1(v)[j - 1]);
        }
    }
}

/// The body of a KDC request (RFC 1510 section 5.4.1).
#[derive(Debug, Clone, PartialEq, Default)]
pub struct KdcReqBody {
    pub kdc_options: Tag<0, KDCOptions>,
    pub cname: Option<Tag<1, PrincipalName>>,
    pub realm: Tag<2, Realm>,
    pub sname: Option<Tag<3, PrincipalName>>,
    pub from: Option<Tag<4, KerberosTime>>,
    pub till: Tag<5, KerberosTime>,
    pub rtime: Option<Tag<6, KerberosTime>>,
    pub nonce: Tag<7, Integer>,
    pub etype: Tag<8, SequenceOf<Integer>>,
    pub addresses: Option<Tag<9, HostAddresses>>,
    pub enc_authorization_data: Option<Tag<10, EncryptedData>>,
    pub additional_tickets: Option<Tag<11, SequenceOf<Ticket>>>,
}

/// The deep view of [`KdcReqBody`].
#[verifier::ext_equal]
pub struct KdcReqBodyView {
    pub kdc_options: BitStringView,
    pub cname: Option<PrincipalNameView>,
    pub realm: Seq<u8>,
    pub sname: Option<PrincipalNameView>,
    pub from: Option<GeneralizedTime>,
    pub till: GeneralizedTime,
    pub rtime: Option<GeneralizedTime>,
    pub nonce: u32,
    pub etype: Seq<u32>,
    pub addresses: Option<Seq<HostAddressView>>,
    pub enc_authorization_data: Option<EncryptedDataView>,
    pub additional_tickets: Option<Seq<TicketBodyView>>,
}

impl DeepView for KdcReqBody {
    type V = KdcReqBodyView;

    open spec fn deep_view(&self) -> KdcReqBodyView {
        KdcReqBodyView {
            kdc_options: self.kdc_options.deep_view(),
            cname: self.cname.deep_view(),
            realm: self.realm.deep_view(),
            sname: self.sname.deep_view(),
            from: self.from.deep_view(),
            till: self.till.deep_view(),
            rtime: self.rtime.deep_view(),
            nonce: self.nonce.deep_view(),
            etype: self.etype.deep_view(),
            addresses: self.addresses.deep_view(),
            enc_authorization_data: self.enc_authorization_data.deep_view(),
            additional_tickets: self.additional_tickets.deep_view(),
        }
    }
}

/// The children a [`KdcReqBody`] writes from its field 0 on.
pub open spec fn kdc_req_body_write_0(v: KdcReqBodyView) -> Seq<AsnValue> {
    seq![Tag::<0, KDCOptions>::spec_to_value(v.kdc_options)] + kdc_req_body_write_1(v)
}

/// The children a [`KdcReqBody`] writes from its field 1 on.
pub open spec fn kdc_req_body_write_1(v: KdcReqBodyView) -> Seq<AsnValue> {
    match v.cname {
        Some(x) => seq![Tag::<1, PrincipalName>::spec_to_value(x)] + kdc_req_body_write_2(v),
        None => kdc_req_body_write_2(v),
    }
}

/// The children a [`KdcReqBody`] writes from its field 2 on.
pub open spec fn kdc_req_body_write_2(v: KdcReqBodyView) -> Seq<AsnValue> {
    seq![Tag::<2, Realm>::spec_to_value(v.realm)] + kdc_req_body_write_3(v)
}

/// The children a [`KdcReqBody`] writes from its field 3 on.
pub open spec fn kdc_req_body_write_3(v: KdcReqBodyView) -> Seq<AsnValue> {
    match v.sname {
        Some(x) => seq![Tag::<3, PrincipalName>::spec_to_value(x)] + kdc_req_body_write_4(v),
        None => kdc_req_body_write_4(v),
    }
}

/// The children a [`KdcReqBody`] writes from its field 4 on.
pub open spec fn kdc_req_body_write_4(v: KdcReqBodyView) -> Seq<AsnValue> {
    match v.from {
        Some(x) => seq![Tag::<4, KerberosTime>::spec_to_value(x)] + kdc_req_body_write_5(v),
        None => kdc_req_body_write_5(v),
    }
}

/// The children a [`KdcReqBody`] writes from its field 5 on.
pub open spec fn kdc_req_body_write_5(v: KdcReqBodyView) -> Seq<AsnValue> {
    seq![Tag::<5, KerberosTime>::spec_to_value(v.till)] + kdc_req_body_write_6(v)
}

/// The children a [`KdcReqBody`] writes from its field 6 on.
pub open spec fn kdc_req_body_write_6(v: KdcReqBodyView) -> Seq<AsnValue> {
    match v.rtime {
        Some(x) => seq![Tag::<6, KerberosTime>::spec_to_value(x)] + kdc_req_body_write_7(v),
        None => kdc_req_body_write_7(v),
    }
}

/// The children a [`KdcReqBody`] writes from its field 7 on.
pub open spec fn kdc_req_body_write_7(v: KdcReqBodyView) -> Seq<AsnValue> {
    seq![Tag::<7, Integer>::spec_to_value(v.nonce)] + kdc_req_body_write_8(v)
}

/// The children a [`KdcReqBody`] writes from its field 8 on.
pub open spec fn kdc_req_body_write_8(v: KdcReqBodyView) -> Seq<AsnValue> {
    seq![Tag::<8, SequenceOf<Integer>>::spec_to_value(v.etype)] + kdc_req_body_write_9(v)
}

/// The children a [`KdcReqBody`] writes from its field 9 on.
pub open spec fn kdc_req_body_write_9(v: KdcReqBodyView) -> Seq<AsnValue> {
    match v.addresses {
        Some(x) => seq![Tag::<9, HostAddresses>::spec_to_value(x)] + kdc_req_body_write_10(v),
        None => kdc_req_body_write_10(v),
    }
}

/// The children a [`KdcReqBody`] writes from its field 10 on.
pub open spec fn kdc_req_body_write_10(v: KdcReqBodyView) -> Seq<AsnValue> {
    match v.enc_authorization_data {
        Some(x) => seq![Tag::<10, EncryptedData>::spec_to_value(x)] + kdc_req_body_write_11(v),
        None => kdc_req_body_write_11(v),
    }
}

/// The children a [`KdcReqBody`] writes from its field 11 on.
pub open spec fn kdc_req_body_write_11(v: KdcReqBodyView) -> Seq<AsnValue> {
    match v.additional_tickets {
        Some(x) => seq![Tag::<11, SequenceOf<Ticket>>::spec_to_value(x)] + kdc_req_body_write_12(v),
        None => kdc_req_body_write_12(v),
    }
}

/// The children a [`KdcReqBody`] writes past its last field: none.
pub open spec fn kdc_req_body_write_12(v: KdcReqBodyView) -> Seq<AsnValue> {
    Seq::empty()
}

/// Read the fields of a [`KdcReqBody`] from field 0 on.
pub open spec fn kdc_req_body_read_0(cs: Seq<AsnValue>) -> Option<KdcReqBodyView> {
    if cs.len() > 0 {
        match Tag::<0, KDCOptions>::spec_from_value(cs[0]) {
            Some(f) => kdc_req_body_read_1(cs.skip(1), f),
            None => None,
        }
    } else {
        None
    }
}

/// Read the fields of a [`KdcReqBody`] from field 1 on.
pub open spec fn kdc_req_body_read_1(cs: Seq<AsnValue>, f_kdc_options: BitStringView) -> Option<KdcReqBodyView> {
    if cs.len() > 0 && has_ctx(cs[0], 1) {
        match Tag::<1, PrincipalName>::spec_from_value(cs[0]) {
            Some(f) => kdc_req_body_read_2(cs.skip(1), f_kdc_options, Some(f)),
            None => None,
        }
    } else {
        kdc_req_body_read_2(cs, f_kdc_options, None::<PrincipalNameView>)
    }
}

/// Read the fields of a [`KdcReqBody`] from field 2 on.
pub open spec fn kdc_req_body_read_2(cs: Seq<AsnValue>, f_kdc_options: BitStringView, f_cname: Option<PrincipalNameView>) -> Option<KdcReqBodyView> {
    if cs.len() > 0 {
        match Tag::<2, Realm>::spec_from_value(cs[0]) {
            Some(f) => kdc_req_body_read_3(cs.skip(1), f_kdc_options, f_cname, f),
            None => None,
        }
    } else {
        None
    }
}

/// Read the fields of a [`KdcReqBody`] from field 3 on.
pub open spec fn kdc_req_body_read_3(cs: Seq<AsnValue>, f_kdc_options: BitStringView, f_cname: Option<PrincipalNameView>, f_realm: Seq<u8>) -> Option<KdcReqBodyView> {
    if cs.len() > 0 && has_ctx(cs[0], 3) {
        match Tag::<3, PrincipalName>::spec_from_value(cs[0]) {
            Some(f) => kdc_req_body_read_4(cs.skip(1), f_kdc_options, f_cname, f_realm, Some(f)),
            None => None,
        }
    } else {
        kdc_req_body_read_4(cs, f_kdc_options, f_cname, f_realm, None::<PrincipalNameView>)
    }
}

/// Read the fields of a [`KdcReqBody`] from field 4 on.
pub open spec fn kdc_req_body_read_4(cs: Seq<AsnValue>, f_kdc_options: BitStringView, f_cname: Option<PrincipalNameView>, f_realm: Seq<u8>, f_sname: Option<PrincipalNameView>) -> Option<KdcReqBodyView> {
    if cs.len() > 0 && has_ctx(cs[0], 4) {
        match Tag::<4, KerberosTime>::spec_from_value(cs[0]) {
            Some(f) => kdc_req_body_read_5(cs.skip(1), f_kdc_options, f_cname, f_realm, f_sname, Some(f)),
            None => None,
        }
    } else {
        kdc_req_body_read_5(cs, f_kdc_options, f_cname, f_realm, f_sname, None::<GeneralizedTime>)
    }
}

/// Read the fields of a [`KdcReqBody`] from field 5 on.
pub open spec fn kdc_req_body_read_5(cs: Seq<AsnValue>, f_kdc_options: BitStringView, f_cname: Option<PrincipalNameView>, f_realm: Seq<u8>, f_sname: Option<PrincipalNameView>, f_from: Option<GeneralizedTime>) -> Option<KdcReqBodyView> {
    if cs.len() > 0 {
        match Tag::<5, KerberosTime>::spec_from_value(cs[0]) {
            Some(f) => kdc_req_body_read_6(cs.skip(1), f_kdc_options, f_cname, f_realm, f_sname, f_from, f),
            None => None,
        }
    } else {
        None
    }
}

/// Read the fields of a [`KdcReqBody`] from field 6 on.
pub open spec fn kdc_req_body_read_6(cs: Seq<AsnValue>, f_kdc_options: BitStringView, f_cname: Option<PrincipalNameView>, f_realm: Seq<u8>, f_sname: Option<PrincipalNameView>, f_from: Option<GeneralizedTime>, f_till: GeneralizedTime) -> Option<KdcReqBodyView> {
    if cs.len() > 0 && has_ctx(cs[0], 6) {
        match Tag::<6, KerberosTime>::spec_from_value(cs[0]) {
            Some(f) => kdc_req_body_read_7(cs.skip(1), f_kdc_options, f_cname, f_realm, f_sname, f_from, f_till, Some(f)),
            None => None,
        }
    } else {
        kdc_req_body_read_7(cs, f_kdc_options, f_cname, f_realm, f_sname, f_from, f_till, None::<GeneralizedTime>)
    }
}

/// Read the fields of a [`KdcReqBody`] from field 7 on.
pub open spec fn kdc_req_body_read_7(cs: Seq<AsnValue>, f_kdc_options: BitStringView, f_cname: Option<PrincipalNameView>, f_realm: Seq<u8>, f_sname: Option<PrincipalNameView>, f_from: Option<GeneralizedTime>, f_till: GeneralizedTime, f_rtime: Option<GeneralizedTime>) -> Option<KdcReqBodyView> {
    if cs.len() > 0 {
        match Tag::<7, Integer>::spec_from_value(cs[0]) {
            Some(f) => kdc_req_body_read_8(cs.skip(1), f_kdc_options, f_cname, f_realm, f_sname, f_from, f_till, f_rtime, f),
            None => None,
        }
    } else {
        None
    }
}

/// Read the fields of a [`KdcReqBody`] from field 8 on.
pub open spec fn kdc_req_body_read_8(cs: Seq<AsnValue>, f_kdc_options: BitStringView, f_cname: Option<PrincipalNameView>, f_realm: Seq<u8>, f_sname: Option<PrincipalNameView>, f_from: Option<GeneralizedTime>, f_till: GeneralizedTime, f_rtime: Option<GeneralizedTime>, f_nonce: u32) -> Option<KdcReqBodyView> {
    if cs.len() > 0 {
        match Tag::<8, SequenceOf<Integer>>::spec_from_value(cs[0]) {
            Some(f) => kdc_req_body_read_9(cs.skip(1), f_kdc_options, f_cname, f_realm, f_sname, f_from, f_till, f_rtime, f_nonce, f),
            None => None,
        }
    } else {
        None
    }
}

/// Read the fields of a [`KdcReqBody`] from field 9 on.
pub open spec fn kdc_req_body_read_9(cs: Seq<AsnValue>, f_kdc_options: BitStringView, f_cname: Option<PrincipalNameView>, f_realm: Seq<u8>, f_sname: Option<PrincipalNameView>, f_from: Option<GeneralizedTime>, f_till: GeneralizedTime, f_rtime: Option<GeneralizedTime>, f_nonce: u32, f_etype: Seq<u32>) -> Option<KdcReqBodyView> {
    if cs.len() > 0 && has_ctx(cs[0], 9) {
        match Tag::<9, HostAddresses>::spec_from_value(cs[0]) {
            Some(f) => kdc_req_body_read_10(cs.skip(1), f_kdc_options, f_cname, f_realm, f_sname, f_from, f_till, f_rtime, f_nonce, f_etype, Some(f)),
            None => None,
        }
    } else {
        kdc_req_body_read_10(cs, f_kdc_options, f_cname, f_realm, f_sname, f_from, f_till, f_rtime, f_nonce, f_etype, None::<Seq<HostAddressView>>)
    }
}

/// Read the fields of a [`KdcReqBody`] from field 10 on.
pub open spec fn kdc_req_body_read_10(cs: Seq<AsnValue>, f_kdc_options: BitStringView, f_cname: Option<PrincipalNameView>, f_realm: Seq<u8>, f_sname: Option<PrincipalNameView>, f_from: Option<GeneralizedTime>, f_till: GeneralizedTime, f_rtime: Option<GeneralizedTime>, f_nonce: u32, f_etype: Seq<u32>, f_addresses: Option<Seq<HostAddressView>>) -> Option<KdcReqBodyView> {
    if cs.len() > 0 && has_ctx(cs[0], 10) {
        match Tag::<10, EncryptedData>::spec_from_value(cs[0]) {
            Some(f) => kdc_req_body_read_11(cs.skip(1), f_kdc_options, f_cname, f_realm, f_sname, f_from, f_till, f_rtime, f_nonce, f_etype, f_addresses, Some(f)),
            None => None,
        }
    } else {
        kdc_req_body_read_11(cs, f_kdc_options, f_cname, f_realm, f_sname, f_from, f_till, f_rtime, f_nonce, f_etype, f_addresses, None::<EncryptedDataView>)
    }
}

/// Read the fields of a [`KdcReqBody`] from field 11 on.
pub open spec fn kdc_req_body_read_11(cs: Seq<AsnValue>, f_kdc_options: BitStringView, f_cname: Option<PrincipalNameView>, f_realm: Seq<u8>, f_sname: Option<PrincipalNameView>, f_from: Option<GeneralizedTime>, f_till: GeneralizedTime, f_rtime: Option<GeneralizedTime>, f_nonce: u32, f_etype: Seq<u32>, f_addresses: Option<Seq<HostAddressView>>, f_enc_authorization_data: Option<EncryptedDataView>) -> Option<KdcReqBodyView> {
    if cs.len() > 0 && has_ctx(cs[0], 11) {
        match Tag::<11, SequenceOf<Ticket>>::spec_from_value(cs[0]) {
            Some(f) => kdc_req_body_read_12(cs.skip(1), f_kdc_options, f_cname, f_realm, f_sname, f_from, f_till, f_rtime, f_nonce, f_etype, f_addresses, f_enc_authorization_data, Some(f)),
            None => None,
        }
    } else {
        kdc_req_body_read_12(cs, f_kdc_options, f_cname, f_realm, f_sname, f_from, f_till, f_rtime, f_nonce, f_etype, f_addresses, f_enc_authorization_data, None::<Seq<TicketBodyView>>)
    }
}

/// Past the last field of a [`KdcReqBody`]: the children must be spent.
pub open spec fn kdc_req_body_read_12(cs: Seq<AsnValue>, f_kdc_options: BitStringView, f_cname: Option<PrincipalNameView>, f_realm: Seq<u8>, f_sname: Option<PrincipalNameView>, f_from: Option<GeneralizedTime>, f_till: GeneralizedTime, f_rtime: Option<GeneralizedTime>, f_nonce: u32, f_etype: Seq<u32>, f_addresses: Option<Seq<HostAddressView>>, f_enc_authorization_data: Option<EncryptedDataView>, f_additional_tickets: Option<Seq<TicketBodyView>>) -> Option<KdcReqBodyView> {
    if cs.len() == 0 {
        Some(KdcReqBodyView {
            kdc_options: f_kdc_options,
            cname: f_cname,
            realm: f_realm,
            sname: f_sname,
            from: f_from,
            till: f_till,
            rtime: f_rtime,
            nonce: f_nonce,
            etype: f_etype,
            addresses: f_addresses,
            enc_authorization_data: f_enc_authorization_data,
            additional_tickets: f_additional_tickets,
        })
    } else {
        None
    }
}

impl Asn1Data for KdcReqBody {
    open spec fn view_wf(v: KdcReqBodyView) -> bool {
        Tag::<0, KDCOptions>::view_wf(v.kdc_options)
            && (match v.cname {
            Some(x) => Tag::<1, PrincipalName>::view_wf(x),
            None => true,
        })
            && Tag::<2, Realm>::view_wf(v.realm)
            && (match v.sname {
            Some(x) => Tag::<3, PrincipalName>::view_wf(x),
            None => true,
        })
            && (match v.from {
            Some(x) => Tag::<4, KerberosTime>::view_wf(x),
            None => true,
        })
            && Tag::<5, KerberosTime>::view_wf(v.till)
            && (match v.rtime {
            Some(x) => Tag::<6, KerberosTime>::view_wf(x),
            None => true,
        })
            && Tag::<7, Integer>::view_wf(v.nonce)
            && Tag::<8, SequenceOf<Integer>>::view_wf(v.etype)
            && (match v.addresses {
            Some(x) => Tag::<9, HostAddresses>::view_wf(x),
            None => true,
        })
            && (match v.enc_authorization_data {
            Some(x) => Tag::<10, EncryptedData>::view_wf(x),
            None => true,
        })
            && (match v.additional_tickets {
            Some(x) => Tag::<11, SequenceOf<Ticket>>::view_wf(x),
            None => true,
        })
    }

    open spec fn spec_to_value(v: KdcReqBodyView) -> AsnValue {
        AsnValue::Sequence(kdc_req_body_write_0(v))
    }

    open spec fn spec_from_value(a: AsnValue) -> Option<KdcReqBodyView> {
        match a {
            AsnValue::Sequence(cs) => kdc_req_body_read_0(cs),
            _ => None,
        }
    }

    fn to_value(&self) -> (r: Asn1Value) {
        let mut children: Vec<Asn1Value> = Vec::new();
        proof {
            assert(crate::der::view_list(children@) =~= Seq::<AsnValue>::empty());
        }
        kdc_req_body_emit_0(self, &mut children);
        proof {
            lemma_nil_concat(kdc_req_body_write_0(self.deep_view()));
        }
        Asn1Value::Sequence(children)
    }

    fn from_value(a: &Asn1Value) -> (r: Result<Self, KerlabError>) {
        match a {
            Asn1Value::Sequence(cs) => {
                proof {
                    crate::der::lemma_view_list(cs@);
                    assert(crate::der::view_list(cs@).skip(0) =~= crate::der::view_list(cs@));
                }
                kdc_req_body_parse_0(cs, 0)
            },
            _ => Err(KerlabError::new(KerlabErrorKind::Parsing, "expected a sequence")),
        }
    }

    proof fn lemma_round_trip(v: KdcReqBodyView) {
        kdc_req_body_rt_0(v);
        assert(Self::spec_from_value(Self::spec_to_value(v)) == Some(v));
    }
}

/// Past the last field of a [`KdcReqBody`]: push nothing.
fn kdc_req_body_emit_12(m: &KdcReqBody, children: &mut Vec<Asn1Value>)
    requires
        KdcReqBody::view_wf(m.deep_view()),
    ensures
        crate::der::view_list(final(children)@) == crate::der::view_list(old(children)@) + kdc_req_body_write_12(m.deep_view()),
{
    proof {
        lemma_concat_nil(crate::der::view_list(children@));
    }
}

/// Push the children for the fields of a [`KdcReqBody`] from field 11 on.
fn kdc_req_body_emit_11(m: &KdcReqBody, children: &mut Vec<Asn1Value>)
    requires
        KdcReqBody::view_wf(m.deep_view()),
    ensures
        crate::der::view_list(final(children)@) == crate::der::view_list(old(children)@) + kdc_req_body_write_11(m.deep_view()),
{
    match &m.additional_tickets {
        Some(x) => {
            let ghost ch_prev = children@;
            children.push(x.to_value());
            proof {
                assert(children@.drop_last() =~= ch_prev);
                assert(crate::der::view_list(children@) == crate::der::view_list(ch_prev).push(Tag::<11, SequenceOf<Ticket>>::spec_to_value(x.deep_view())));
            }
            kdc_req_body_emit_12(m, children);
            proof {
                assert(kdc_req_body_write_11(m.deep_view()) == seq![Tag::<11, SequenceOf<Ticket>>::spec_to_value(x.deep_view())] + kdc_req_body_write_12(m.deep_view()));
                lemma_snoc_concat(crate::der::view_list(ch_prev), Tag::<11, SequenceOf<Ticket>>::spec_to_value(x.deep_view()), kdc_req_body_write_12(m.deep_view()));
            }
        },
        None => {
            kdc_req_body_emit_12(m, children);
            proof {
                assert(kdc_req_body_write_11(m.deep_view()) == kdc_req_body_write_12(m.deep_view()));
            }
        },
    }
}

/// Push the children for the fields of a [`KdcReqBody`] from field 10 on.
fn kdc_req_body_emit_10(m: &KdcReqBody, children: &mut Vec<Asn1Value>)
    requires
        KdcReqBody::view_wf(m.deep_view()),
    ensures
        crate::der::view_list(final(children)@) == crate::der::view_list(old(children)@) + kdc_req_body_write_10(m.deep_view()),
{
    match &m.enc_authorization_data {
        Some(x) => {
            let ghost ch_prev = children@;
            children.push(x.to_value());
            proof {
                assert(children@.drop_last() =~= ch_prev);
                assert(crate::der::view_list(children@) == crate::der::view_list(ch_prev).push(Tag::<10, EncryptedData>::spec_to_value(x.deep_view())));
            }
            kdc_req_body_emit_11(m, children);
            proof {
                assert(kdc_req_body_write_10(m.deep_view()) == seq![Tag::<10, EncryptedData>::spec_to_value(x.deep_view())] + kdc_req_body_write_11(m.deep_view()));
                lemma_snoc_concat(crate::der::view_list(ch_prev), Tag::<10, EncryptedData>::spec_to_value(x.deep_view()), kdc_req_body_write_11(m.deep_view()));
            }
        },
        None => {
            kdc_req_body_emit_11(m, children);
            proof {
                assert(kdc_req_body_write_10(m.deep_view()) == kdc_req_body_write_11(m.deep_view()));
            }
        },
    }
}

/// Push the children for the fields of a [`KdcReqBody`] from field 9 on.
fn kdc_req_body_emit_9(m: &KdcReqBody, children: &mut Vec<Asn1Value>)
    requires
        KdcReqBody::view_wf(m.deep_view()),
    ensures
        crate::der::view_list(final(children)@) == crate::der::view_list(old(children)@) + kdc_req_body_write_9(m.deep_view()),
{
    match &m.addresses {
        Some(x) => {
            let ghost ch_prev = children@;
            children.push(x.to_value());
            proof {
                assert(children@.drop_last() =~= ch_prev);
                assert(crate::der::view_list(children@) == crate::der::view_list(ch_prev).push(Tag::<9, HostAddresses>::spec_to_value(x.deep_view())));
            }
            kdc_req_body_emit_10(m, children);
            proof {
                assert(kdc_req_body_write_9(m.deep_view()) == seq![Tag::<9, HostAddresses>::spec_to_value(x.deep_view())] + kdc_req_body_write_10(m.deep_view()));
                lemma_snoc_concat(crate::der::view_list(ch_prev), Tag::<9, HostAddresses>::spec_to_value(x.deep_view()), kdc_req_body_write_10(m.deep_view()));
            }
        },
        None => {
            kdc_req_body_emit_10(m, children);
            proof {
                assert(kdc_req_body_write_9(m.deep_view()) == kdc_req_body_write_10(m.deep_view()));
            }
        },
    }
}

/// Push the children for the fields of a [`KdcReqBody`] from field 8 on.
fn kdc_req_body_emit_8(m: &KdcReqBody, children: &mut Vec<Asn1Value>)
    requires
        KdcReqBody::view_wf(m.deep_view()),
    ensures
        crate::der::view_list(final(children)@) == crate::der::view_list(old(children)@) + kdc_req_body_write_8(m.deep_view()),
{
    let ghost ch_prev = children@;
    children.push(m.etype.to_value());
    proof {
        assert(children@.drop_last() =~= ch_prev);
        assert(crate::der::view_list(children@) == crate::der::view_list(ch_prev).push(Tag::<8, SequenceOf<Integer>>::spec_to_value(m.etype.deep_view())));
    }
    kdc_req_body_emit_9(m, children);
    proof {
        assert(kdc_req_body_write_8(m.deep_view()) == seq![Tag::<8, SequenceOf<Integer>>::spec_to_value(m.etype.deep_view())] + kdc_req_body_write_9(m.deep_view()));
        lemma_snoc_concat(crate::der::view_list(ch_prev), Tag::<8, SequenceOf<Integer>>::spec_to_value(m.etype.deep_view()), kdc_req_body_write_9(m.deep_view()));
    }
}

/// Push the children for the fields of a [`KdcReqBody`] from field 7 on.
fn kdc_req_body_emit_7(m: &KdcReqBody, children: &mut Vec<Asn1Value>)
    requires
        KdcReqBody::view_wf(m.deep_view()),
    ensures
        crate::der::view_list(final(children)@) == crate::der::view_list(old(children)@) + kdc_req_body_write_7(m.deep_view()),
{
    let ghost ch_prev = children@;
    children.push(m.nonce.to_value());
    proof {
        assert(children@.drop_last() =~= ch_prev);
        assert(crate::der::view_list(children@) == crate::der::view_list(ch_prev).push(Tag::<7, Integer>::spec_to_value(m.nonce.deep_view())));
    }
    kdc_req_body_emit_8(m, children);
    proof {
        assert(kdc_req_body_write_7(m.deep_view()) == seq![Tag::<7, Integer>::spec_to_value(m.nonce.deep_view())] + kdc_req_body_write_8(m.deep_view()));
        lemma_snoc_concat(crate::der::view_list(ch_prev), Tag::<7, Integer>::spec_to_value(m.nonce.deep_view()), kdc_req_body_write_8(m.deep_view()));
    }
}

/// Push the children for the fields of a [`KdcReqBody`] from field 6 on.
fn kdc_req_body_emit_6(m: &KdcReqBody, children: &mut Vec<Asn1Value>)
    requires
        KdcReqBody::view_wf(m.deep_view()),
    ensures
        crate::der::view_list(final(children)@) == crate::der::view_list(old(children)@) + kdc_req_body_write_6(m.deep_view()),
{
    match &m.rtime {
        Some(x) => {
            let ghost ch_prev = children@;
            children.push(x.to_value());
            proof {
                assert(children@.drop_last() =~= ch_prev);
                assert(crate::der::view_list(children@) == crate::der::view_list(ch_prev).push(Tag::<6, KerberosTime>::spec_to_value(x.deep_view())));
            }
            kdc_req_body_emit_7(m, children);
            proof {
                assert(kdc_req_body_write_6(m.deep_view()) == seq![Tag::<6, KerberosTime>::spec_to_value(x.deep_view())] + kdc_req_body_write_7(m.deep_view()));
                lemma_snoc_concat(crate::der::view_list(ch_prev), Tag::<6, KerberosTime>::spec_to_value(x.deep_view()), kdc_req_body_write_7(m.deep_view()));
            }
        },
        None => {
            kdc_req_body_emit_7(m, children);
            proof {
                assert(kdc_req_body_write_6(m.deep_view()) == kdc_req_body_write_7(m.deep_view()));
            }
        },
    }
}

/// Push the children for the fields of a [`KdcReqBody`] from field 5 on.
fn kdc_req_body_emit_5(m: &KdcReqBody, children: &mut Vec<Asn1Value>)
    requires
        KdcReqBody::view_wf(m.deep_view()),
    ensures
        crate::der::view_list(final(children)@) == crate::der::view_list(old(children)@) + kdc_req_body_write_5(m.deep_view()),
{
    let ghost ch_prev = children@;
    children.push(m.till.to_value());
    proof {
        assert(children@.drop_last() =~= ch_prev);
        assert(crate::der::view_list(children@) == crate::der::view_list(ch_prev).push(Tag::<5, KerberosTime>::spec_to_value(m.till.deep_view())));
    }
    kdc_req_body_emit_6(m, children);
    proof {
        assert(kdc_req_body_write_5(m.deep_view()) == seq![Tag::<5, KerberosTime>::spec_to_value(m.till.deep_view())] + kdc_req_body_write_6(m.deep_view()));
        lemma_snoc_concat(crate::der::view_list(ch_prev), Tag::<5, KerberosTime>::spec_to_value(m.till.deep_view()), kdc_req_body_write_6(m.deep_view()));
    }
}

/// Push the children for the fields of a [`KdcReqBody`] from field 4 on.
fn kdc_req_body_emit_4(m: &KdcReqBody, children: &mut Vec<Asn1Value>)
    requires
        KdcReqBody::view_wf(m.deep_view()),
    ensures
        crate::der::view_list(final(children)@) == crate::der::view_list(old(children)@) + kdc_req_body_write_4(m.deep_view()),
{
    match &m.from {
        Some(x) => {
            let ghost ch_prev = children@;
            children.push(x.to_value());
            proof {
                assert(children@.drop_last() =~= ch_prev);
                assert(crate::der::view_list(children@) == crate::der::view_list(ch_prev).push(Tag::<4, KerberosTime>::spec_to_value(x.deep_view())));
            }
            kdc_req_body_emit_5(m, children);
            proof {
                assert(kdc_req_body_write_4(m.deep_view()) == seq![Tag::<4, KerberosTime>::spec_to_value(x.deep_view())] + kdc_req_body_write_5(m.deep_view()));
                lemma_snoc_concat(crate::der::view_list(ch_prev), Tag::<4, KerberosTime>::spec_to_value(x.deep_view()), kdc_req_body_write_5(m.deep_view()));
            }
        },
        None => {
            kdc_req_body_emit_5(m, children);
            proof {
                assert(kdc_req_body_write_4(m.deep_view()) == kdc_req_body_write_5(m.deep_view()));
            }
        },
    }
}

/// Push the children for the fields of a [`KdcReqBody`] from field 3 on.
fn kdc_req_body_emit_3(m: &KdcReqBody, children: &mut Vec<Asn1Value>)
    requires
        KdcReqBody::view_wf(m.deep_view()),
    ensures
        crate::der::view_list(final(children)@) == crate::der::view_list(old(children)@) + kdc_req_body_write_3(m.deep_view()),
{
    match &m.sname {
        Some(x) => {
            let ghost ch_prev = children@;
            children.push(x.to_value());
            proof {
                assert(children@.drop_last() =~= ch_prev);
                assert(crate::der::view_list(children@) == crate::der::view_list(ch_prev).push(Tag::<3, PrincipalName>::spec_to_value(x.deep_view())));
            }
            kdc_req_body_emit_4(m, children);
            proof {
                assert(kdc_req_body_write_3(m.deep_view()) == seq![Tag::<3, PrincipalName>::spec_to_value(x.deep_view())] + kdc_req_body_write_4(m.deep_view()));
                lemma_snoc_concat(crate::der::view_list(ch_prev), Tag::<3, PrincipalName>::spec_to_value(x.deep_view()), kdc_req_body_write_4(m.deep_view()));
            }
        },
        None => {
            kdc_req_body_emit_4(m, children);
            proof {
                assert(kdc_req_body_write_3(m.deep_view()) == kdc_req_body_write_4(m.deep_view()));
            }
        },
    }
}

/// Push the children for the fields of a [`KdcReqBody`] from field 2 on.
fn kdc_req_body_emit_2(m: &KdcReqBody, children: &mut Vec<Asn1Value>)
    requires
        KdcReqBody::view_wf(m.deep_view()),
    ensures
        crate::der::view_list(final(children)@) == crate::der::view_list(old(children)@) + kdc_req_body_write_2(m.deep_view()),
{
    let ghost ch_prev = children@;
    children.push(m.realm.to_value());
    proof {
        assert(children@.drop_last() =~= ch_prev);
        assert(crate::der::view_list(children@) == crate::der::view_list(ch_prev).push(Tag::<2, Realm>::spec_to_value(m.realm.deep_view())));
    }
    kdc_req_body_emit_3(m, children);
    proof {
        assert(kdc_req_body_write_2(m.deep_view()) == seq![Tag::<2, Realm>::spec_to_value(m.realm.deep_view())] + kdc_req_body_write_3(m.deep_view()));
        lemma_snoc_concat(crate::der::view_list(ch_prev), Tag::<2, Realm>::spec_to_value(m.realm.deep_view()), kdc_req_body_write_3(m.deep_view()));
    }
}

/// Push the children for the fields of a [`KdcReqBody`] from field 1 on.
fn kdc_req_body_emit_1(m: &KdcReqBody, children: &mut Vec<Asn1Value>)
    requires
        KdcReqBody::view_wf(m.deep_view()),
    ensures
        crate::der::view_list(final(children)@) == crate::der::view_list(old(children)@) + kdc_req_body_write_1(m.deep_view()),
{
    match &m.cname {
        Some(x) => {
            let ghost ch_prev = children@;
            children.push(x.to_value());
            proof {
                assert(children@.drop_last() =~= ch_prev);
                assert(crate::der::view_list(children@) == crate::der::view_list(ch_prev).push(Tag::<1, PrincipalName>::spec_to_value(x.deep_view())));
            }
            kdc_req_body_emit_2(m, children);
            proof {
                assert(kdc_req_body_write_1(m.deep_view()) == seq![Tag::<1, PrincipalName>::spec_to_value(x.deep_view())] + kdc_req_body_write_2(m.deep_view()));
                lemma_snoc_concat(crate::der::view_list(ch_prev), Tag::<1, PrincipalName>::spec_to_value(x.deep_view()), kdc_req_body_write_2(m.deep_view()));
            }
        },
        None => {
            kdc_req_body_emit_2(m, children);
            proof {
                assert(kdc_req_body_write_1(m.deep_view()) == kdc_req_body_write_2(m.deep_view()));
            }
        },
    }
}

/// Push the children for the fields of a [`KdcReqBody`] from field 0 on.
fn kdc_req_body_emit_0(m: &KdcReqBody, children: &mut Vec<Asn1Value>)
    requires
        KdcReqBody::view_wf(m.deep_view()),
    ensures
        crate::der::view_list(final(children)@) == crate::der::view_list(old(children)@) + kdc_req_body_write_0(m.deep_view()),
{
    let ghost ch_prev = children@;
    children.push(m.kdc_options.to_value());
    proof {
        assert(children@.drop_last() =~= ch_prev);
        assert(crate::der::view_list(children@) == crate::der::view_list(ch_prev).push(Tag::<0, KDCOptions>::spec_to_value(m.kdc_options.deep_view())));
    }
    kdc_req_body_emit_1(m, children);
    proof {
        assert(kdc_req_body_write_0(m.deep_view()) == seq![Tag::<0, KDCOptions>::spec_to_value(m.kdc_options.deep_view())] + kdc_req_body_write_1(m.deep_view()));
        lemma_snoc_concat(crate::der::view_list(ch_prev), Tag::<0, KDCOptions>::spec_to_value(m.kdc_options.deep_view()), kdc_req_body_write_1(m.deep_view()));
    }
}

/// Past the last field of a [`KdcReqBody`]: the children must be spent.
fn kdc_req_body_parse_12(cs: &Vec<Asn1Value>, i: usize, f_kdc_options: Tag<0, KDCOptions>, f_cname: Option<Tag<1, PrincipalName>>, f_realm: Tag<2, Realm>, f_sname: Option<Tag<3, PrincipalName>>, f_from: Option<Tag<4, KerberosTime>>, f_till: Tag<5, KerberosTime>, f_rtime: Option<Tag<6, KerberosTime>>, f_nonce: Tag<7, Integer>, f_etype: Tag<8, SequenceOf<Integer>>, f_addresses: Option<Tag<9, HostAddresses>>, f_enc_authorization_data: Option<Tag<10, EncryptedData>>, f_additional_tickets: Option<Tag<11, SequenceOf<Ticket>>>) -> (r: Result<KdcReqBody, KerlabError>)
    requires
        i <= cs@.len(),
        Tag::<0, KDCOptions>::view_wf(f_kdc_options.deep_view()),
        (match f_cname {
            Some(x) => Tag::<1, PrincipalName>::view_wf(x.deep_view()),
            None => true,
        }),
        Tag::<2, Realm>::view_wf(f_realm.deep_view()),
        (match f_sname {
            Some(x) => Tag::<3, PrincipalName>::view_wf(x.deep_view()),
            None => true,
        }),
        (match f_from {
            Some(x) => Tag::<4, KerberosTime>::view_wf(x.deep_view()),
            None => true,
        }),
        Tag::<5, KerberosTime>::view_wf(f_till.deep_view()),
        (match f_rtime {
            Some(x) => Tag::<6, KerberosTime>::view_wf(x.deep_view()),
            None => true,
        }),
        Tag::<7, Integer>::view_wf(f_nonce.deep_view()),
        Tag::<8, SequenceOf<Integer>>::view_wf(f_etype.deep_view()),
        (match f_addresses {
            Some(x) => Tag::<9, HostAddresses>::view_wf(x.deep_view()),
            None => true,
        }),
        (match f_enc_authorization_data {
            Some(x) => Tag::<10, EncryptedData>::view_wf(x.deep_view()),
            None => true,
        }),
        (match f_additional_tickets {
            Some(x) => Tag::<11, SequenceOf<Ticket>>::view_wf(x.deep_view()),
            None => true,
        }),
    ensures
        match r {
            Ok(x) => kdc_req_body_read_12(crate::der::view_list(cs@).skip(i as int), f_kdc_options.deep_view(), f_cname.deep_view(), f_realm.deep_view(), f_sname.deep_view(), f_from.deep_view(), f_till.deep_view(), f_rtime.deep_view(), f_nonce.deep_view(), f_etype.deep_view(), f_addresses.deep_view(), f_enc_authorization_data.deep_view(), f_additional_tickets.deep_view()) == Some(x.deep_view())
                && KdcReqBody::view_wf(x.deep_view()),
            Err(e) => kdc_req_body_read_12(crate::der::view_list(cs@).skip(i as int), f_kdc_options.deep_view(), f_cname.deep_view(), f_realm.deep_view(), f_sname.deep_view(), f_from.deep_view(), f_till.deep_view(), f_rtime.deep_view(), f_nonce.deep_view(), f_etype.deep_view(), f_addresses.deep_view(), f_enc_authorization_data.deep_view(), f_additional_tickets.deep_view()) is None
                && e.spec_kind() == KerlabErrorKind::Parsing,
        },
{
    proof {
        crate::der::lemma_view_list(cs@);
    }
    let ghost vl = crate::der::view_list(cs@);
    if i != cs.len() {
        proof {
            assert(vl.skip(i as int).len() > 0);
        }
        return Err(KerlabError::new(KerlabErrorKind::Parsing, "unexpected extra field"));
    }
    proof {
        assert(vl.skip(i as int).len() == 0);
    }
    Ok(KdcReqBody {
        kdc_options: f_kdc_options,
        cname: f_cname,
        realm: f_realm,
        sname: f_sname,
        from: f_from,
        till: f_till,
        rtime: f_rtime,
        nonce: f_nonce,
        etype: f_etype,
        addresses: f_addresses,
        enc_authorization_data: f_enc_authorization_data,
        additional_tickets: f_additional_tickets,
    })
}

/// Read the fields of a [`KdcReqBody`] from field 11 on.
fn kdc_req_body_parse_11(cs: &Vec<Asn1Value>, i: usize, f_kdc_options: Tag<0, KDCOptions>, f_cname: Option<Tag<1, PrincipalName>>, f_realm: Tag<2, Realm>, f_sname: Option<Tag<3, PrincipalName>>, f_from: Option<Tag<4, KerberosTime>>, f_till: Tag<5, KerberosTime>, f_rtime: Option<Tag<6, KerberosTime>>, f_nonce: Tag<7, Integer>, f_etype: Tag<8, SequenceOf<Integer>>, f_addresses: Option<Tag<9, HostAddresses>>, f_enc_authorization_data: Option<Tag<10, EncryptedData>>) -> (r: Result<KdcReqBody, KerlabError>)
    requires
        i <= cs@.len(),
        Tag::<0, KDCOptions>::view_wf(f_kdc_options.deep_view()),
        (match f_cname {
            Some(x) => Tag::<1, PrincipalName>::view_wf(x.deep_view()),
            None => true,
        }),
        Tag::<2, Realm>::view_wf(f_realm.deep_view()),
        (match f_sname {
            Some(x) => Tag::<3, PrincipalName>::view_wf(x.deep_view()),
            None => true,
        }),
        (match f_from {
            Some(x) => Tag::<4, KerberosTime>::view_wf(x.deep_view()),
            None => true,
        }),
        Tag::<5, KerberosTime>::view_wf(f_till.deep_view()),
        (match f_rtime {
            Some(x) => Tag::<6, KerberosTime>::view_wf(x.deep_view()),
            None => true,
        }),
        Tag::<7, Integer>::view_wf(f_nonce.deep_view()),
        Tag::<8, SequenceOf<Integer>>::view_wf(f_etype.deep_view()),
        (match f_addresses {
            Some(x) => Tag::<9, HostAddresses>::view_wf(x.deep_view()),
            None => true,
        }),
        (match f_enc_authorization_data {
            Some(x) => Tag::<10, EncryptedData>::view_wf(x.deep_view()),
            None => true,
        }),
    ensures
        match r {
            Ok(x) => kdc_req_body_read_11(crate::der::view_list(cs@).skip(i as int), f_kdc_options.deep_view(), f_cname.deep_view(), f_realm.deep_view(), f_sname.deep_view(), f_from.deep_view(), f_till.deep_view(), f_rtime.deep_view(), f_nonce.deep_view(), f_etype.deep_view(), f_addresses.deep_view(), f_enc_authorization_data.deep_view()) == Some(x.deep_view())
                && KdcReqBody::view_wf(x.deep_view()),
            Err(e) => kdc_req_body_read_11(crate::der::view_list(cs@).skip(i as int), f_kdc_options.deep_view(), f_cname.deep_view(), f_realm.deep_view(), f_sname.deep_view(), f_from.deep_view(), f_till.deep_view(), f_rtime.deep_view(), f_nonce.deep_view(), f_etype.deep_view(), f_addresses.deep_view(), f_enc_authorization_data.deep_view()) is None
                && e.spec_kind() == KerlabErrorKind::Parsing,
        },
{
    proof {
        crate::der::lemma_view_list(cs@);
    }
    let ghost vl = crate::der::view_list(cs@);
    if i < cs.len() && is_ctx(&cs[i], 11) {
        proof {
            assert(vl.skip(i as int)[0] == vl[i as int]);
            assert(vl[i as int] == cs@[i as int]@);
        }
        let x = match Tag::<11, SequenceOf<Ticket>>::from_value(&cs[i]) {
            Ok(x) => x,
            Err(e) => {
                return Err(e);
            },
        };
        proof {
            lemma_skip_skip(vl, i as int);
        }
        let r = kdc_req_body_parse_12(cs, i + 1, f_kdc_options, f_cname, f_realm, f_sname, f_from, f_till, f_rtime, f_nonce, f_etype, f_addresses, f_enc_authorization_data, Some(x));
        proof {
            assert(kdc_req_body_read_11(vl.skip(i as int), f_kdc_options.deep_view(), f_cname.deep_view(), f_realm.deep_view(), f_sname.deep_view(), f_from.deep_view(), f_till.deep_view(), f_rtime.deep_view(), f_nonce.deep_view(), f_etype.deep_view(), f_addresses.deep_view(), f_enc_authorization_data.deep_view()) == kdc_req_body_read_12(vl.skip(i + 1), f_kdc_options.deep_view(), f_cname.deep_view(), f_realm.deep_view(), f_sname.deep_view(), f_from.deep_view(), f_till.deep_view(), f_rtime.deep_view(), f_nonce.deep_view(), f_etype.deep_view(), f_addresses.deep_view(), f_enc_authorization_data.deep_view(), Some(x).deep_view()));
        }
        r
    } else {
        proof {
            if i < cs@.len() {
                assert(vl.skip(i as int)[0] == vl[i as int]);
                assert(vl[i as int] == cs@[i as int]@);
            }
        }
        let r = kdc_req_body_parse_12(cs, i, f_kdc_options, f_cname, f_realm, f_sname, f_from, f_till, f_rtime, f_nonce, f_etype, f_addresses, f_enc_authorization_data, None);
        proof {
            assert(kdc_req_body_read_11(vl.skip(i as int), f_kdc_options.deep_view(), f_cname.deep_view(), f_realm.deep_view(), f_sname.deep_view(), f_from.deep_view(), f_till.deep_view(), f_rtime.deep_view(), f_nonce.deep_view(), f_etype.deep_view(), f_addresses.deep_view(), f_enc_authorization_data.deep_view()) == kdc_req_body_read_12(vl.skip(i as int), f_kdc_options.deep_view(), f_cname.deep_view(), f_realm.deep_view(), f_sname.deep_view(), f_from.deep_view(), f_till.deep_view(), f_rtime.deep_view(), f_nonce.deep_view(), f_etype.deep_view(), f_addresses.deep_view(), f_enc_authorization_data.deep_view(), None::<Tag<11, SequenceOf<Ticket>>>.deep_view()));
        }
        r
    }
}

/// Read the fields of a [`KdcReqBody`] from field 10 on.
fn kdc_req_body_parse_10(cs: &Vec<Asn1Value>, i: usize, f_kdc_options: Tag<0, KDCOptions>, f_cname: Option<Tag<1, PrincipalName>>, f_realm: Tag<2, Realm>, f_sname: Option<Tag<3, PrincipalName>>, f_from: Option<Tag<4, KerberosTime>>, f_till: Tag<5, KerberosTime>, f_rtime: Option<Tag<6, KerberosTime>>, f_nonce: Tag<7, Integer>, f_etype: Tag<8, SequenceOf<Integer>>, f_addresses: Option<Tag<9, HostAddresses>>) -> (r: Result<KdcReqBody, KerlabError>)
    requires
        i <= cs@.len(),
        Tag::<0, KDCOptions>::view_wf(f_kdc_options.deep_view()),
        (match f_cname {
            Some(x) => Tag::<1, PrincipalName>::view_wf(x.deep_view()),
            None => true,
        }),
        Tag::<2, Realm>::view_wf(f_realm.deep_view()),
        (match f_sname {
            Some(x) => Tag::<3, PrincipalName>::view_wf(x.deep_view()),
            None => true,
        }),
        (match f_from {
            Some(x) => Tag::<4, KerberosTime>::view_wf(x.deep_view()),
            None => true,
        }),
        Tag::<5, KerberosTime>::view_wf(f_till.deep_view()),
        (match f_rtime {
            Some(x) => Tag::<6, KerberosTime>::view_wf(x.deep_view()),
            None => true,
        }),
        Tag::<7, Integer>::view_wf(f_nonce.deep_view()),
        Tag::<8, SequenceOf<Integer>>::view_wf(f_etype.deep_view()),
        (match f_addresses {
            Some(x) => Tag::<9, HostAddresses>::view_wf(x.deep_view()),
            None => true,
        }),
    ensures
        match r {
            Ok(x) => kdc_req_body_read_10(crate::der::view_list(cs@).skip(i as int), f_kdc_options.deep_view(), f_cname.deep_view(), f_realm.deep_view(), f_sname.deep_view(), f_from.deep_view(), f_till.deep_view(), f_rtime.deep_view(), f_nonce.deep_view(), f_etype.deep_view(), f_addresses.deep_view()) == Some(x.deep_view())
                && KdcReqBody::view_wf(x.deep_view()),
            Err(e) => kdc_req_body_read_10(crate::der::view_list(cs@).skip(i as int), f_kdc_options.deep_view(), f_cname.deep_view(), f_realm.deep_view(), f_sname.deep_view(), f_from.deep_view(), f_till.deep_view(), f_rtime.deep_view(), f_nonce.deep_view(), f_etype.deep_view(), f_addresses.deep_view()) is None
                && e.spec_kind() == KerlabErrorKind::Parsing,
        },
{
    proof {
        crate::der::lemma_view_list(cs@);
    }
    let ghost vl = crate::der::view_list(cs@);
    if i < cs.len() && is_ctx(&cs[i], 10) {
        proof {
            assert(vl.skip(i as int)[0] == vl[i as int]);
            assert(vl[i as int] == cs@[i as int]@);
        }
        let x = match Tag::<10, EncryptedData>::from_value(&cs[i]) {
            Ok(x) => x,
            Err(e) => {
                return Err(e);
            },
        };
        proof {
            lemma_skip_skip(vl, i as int);
        }
        let r = kdc_req_body_parse_11(cs, i + 1, f_kdc_options, f_cname, f_realm, f_sname, f_from, f_till, f_rtime, f_nonce, f_etype, f_addresses, Some(x));
        proof {
            assert(kdc_req_body_read_10(vl.skip(i as int), f_kdc_options.deep_view(), f_cname.deep_view(), f_realm.deep_view(), f_sname.deep_view(), f_from.deep_view(), f_till.deep_view(), f_rtime.deep_view(), f_nonce.deep_view(), f_etype.deep_view(), f_addresses.deep_view()) == kdc_req_body_read_11(vl.skip(i + 1), f_kdc_options.deep_view(), f_cname.deep_view(), f_realm.deep_view(), f_sname.deep_view(), f_from.deep_view(), f_till.deep_view(), f_rtime.deep_view(), f_nonce.deep_view(), f_etype.deep_view(), f_addresses.deep_view(), Some(x).deep_view()));
        }
        r
    } else {
        proof {
            if i < cs@.len() {
                assert(vl.skip(i as int)[0] == vl[i as int]);
                assert(vl[i as int] == cs@[i as int]@);
            }
        }
        let r = kdc_req_body_parse_11(cs, i, f_kdc_options, f_cname, f_realm, f_sname, f_from, f_till, f_rtime, f_nonce, f_etype, f_addresses, None);
        proof {
            assert(kdc_req_body_read_10(vl.skip(i as int), f_kdc_options.deep_view(), f_cname.deep_view(), f_realm.deep_view(), f_sname.deep_view(), f_from.deep_view(), f_till.deep_view(), f_rtime.deep_view(), f_nonce.deep_view(), f_etype.deep_view(), f_addresses.deep_view()) == kdc_req_body_read_11(vl.skip(i as int), f_kdc_options.deep_view(), f_cname.deep_view(), f_realm.deep_view(), f_sname.deep_view(), f_from.deep_view(), f_till.deep_view(), f_rtime.deep_view(), f_nonce.deep_view(), f_etype.deep_view(), f_addresses.deep_view(), None::<Tag<10, EncryptedData>>.deep_view()));
        }
        r
    }
}

/// Read the fields of a [`KdcReqBody`] from field 9 on.
fn kdc_req_body_parse_9(cs: &Vec<Asn1Value>, i: usize, f_kdc_options: Tag<0, KDCOptions>, f_cname: Option<Tag<1, PrincipalName>>, f_realm: Tag<2, Realm>, f_sname: Option<Tag<3, PrincipalName>>, f_from: Option<Tag<4, KerberosTime>>, f_till: Tag<5, KerberosTime>, f_rtime: Option<Tag<6, KerberosTime>>, f_nonce: Tag<7, Integer>, f_etype: Tag<8, SequenceOf<Integer>>) -> (r: Result<KdcReqBody, KerlabError>)
    requires
        i <= cs@.len(),
        Tag::<0, KDCOptions>::view_wf(f_kdc_options.deep_view()),
        (match f_cname {
            Some(x) => Tag::<1, PrincipalName>::view_wf(x.deep_view()),
            None => true,
        }),
        Tag::<2, Realm>::view_wf(f_realm.deep_view()),
        (match f_sname {
            Some(x) => Tag::<3, PrincipalName>::view_wf(x.deep_view()),
            None => true,
        }),
        (match f_from {
            Some(x) => Tag::<4, KerberosTime>::view_wf(x.deep_view()),
            None => true,
        }),
        Tag::<5, KerberosTime>::view_wf(f_till.deep_view()),
        (match f_rtime {
            Some(x) => Tag::<6, KerberosTime>::view_wf(x.deep_view()),
            None => true,
        }),
        Tag::<7, Integer>::view_wf(f_nonce.deep_view()),
        Tag::<8, SequenceOf<Integer>>::view_wf(f_etype.deep_view()),
    ensures
        match r {
            Ok(x) => kdc_req_body_read_9(crate::der::view_list(cs@).skip(i as int), f_kdc_options.deep_view(), f_cname.deep_view(), f_realm.deep_view(), f_sname.deep_view(), f_from.deep_view(), f_till.deep_view(), f_rtime.deep_view(), f_nonce.deep_view(), f_etype.deep_view()) == Some(x.deep_view())
                && KdcReqBody::view_wf(x.deep_view()),
            Err(e) => kdc_req_body_read_9(crate::der::view_list(cs@).skip(i as int), f_kdc_options.deep_view(), f_cname.deep_view(), f_realm.deep_view(), f_sname.deep_view(), f_from.deep_view(), f_till.deep_view(), f_rtime.deep_view(), f_nonce.deep_view(), f_etype.deep_view()) is None
                && e.spec_kind() == KerlabErrorKind::Parsing,
        },
{
    proof {
        crate::der::lemma_view_list(cs@);
    }
    let ghost vl = crate::der::view_list(cs@);
    if i < cs.len() && is_ctx(&cs[i], 9) {
        proof {
            assert(vl.skip(i as int)[0] == vl[i as int]);
            assert(vl[i as int] == cs@[i as int]@);
        }
        let x = match Tag::<9, HostAddresses>::from_value(&cs[i]) {
            Ok(x) => x,
            Err(e) => {
                return Err(e);
            },
        };
        proof {
            lemma_skip_skip(vl, i as int);
        }
        let r = kdc_req_body_parse_10(cs, i + 1, f_kdc_options, f_cname, f_realm, f_sname, f_from, f_till, f_rtime, f_nonce, f_etype, Some(x));
        proof {
            assert(kdc_req_body_read_9(vl.skip(i as int), f_kdc_options.deep_view(), f_cname.deep_view(), f_realm.deep_view(), f_sname.deep_view(), f_from.deep_view(), f_till.deep_view(), f_rtime.deep_view(), f_nonce.deep_view(), f_etype.deep_view()) == kdc_req_body_read_10(vl.skip(i + 1), f_kdc_options.deep_view(), f_cname.deep_view(), f_realm.deep_view(), f_sname.deep_view(), f_from.deep_view(), f_till.deep_view(), f_rtime.deep_view(), f_nonce.deep_view(), f_etype.deep_view(), Some(x).deep_view()));
        }
        r
    } else {
        proof {
            if i < cs@.len() {
                assert(vl.skip(i as int)[0] == vl[i as int]);
                assert(vl[i as int] == cs@[i as int]@);
            }
        }
        let r = kdc_req_body_parse_10(cs, i, f_kdc_options, f_cname, f_realm, f_sname, f_from, f_till, f_rtime, f_nonce, f_etype, None);
        proof {
            assert(kdc_req_body_read_9(vl.skip(i as int), f_kdc_options.deep_view(), f_cname.deep_view(), f_realm.deep_view(), f_sname.deep_view(), f_from.deep_view(), f_till.deep_view(), f_rtime.deep_view(), f_nonce.deep_view(), f_etype.deep_view()) == kdc_req_body_read_10(vl.skip(i as int), f_kdc_options.deep_view(), f_cname.deep_view(), f_realm.deep_view(), f_sname.deep_view(), f_from.deep_view(), f_till.deep_view(), f_rtime.deep_view(), f_nonce.deep_view(), f_etype.deep_view(), None::<Tag<9, HostAddresses>>.deep_view()));
        }
        r
    }
}

/// Read the fields of a [`KdcReqBody`] from field 8 on.
fn kdc_req_body_parse_8(cs: &Vec<Asn1Value>, i: usize, f_kdc_options: Tag<0, KDCOptions>, f_cname: Option<Tag<1, PrincipalName>>, f_realm: Tag<2, Realm>, f_sname: Option<Tag<3, PrincipalName>>, f_from: Option<Tag<4, KerberosTime>>, f_till: Tag<5, KerberosTime>, f_rtime: Option<Tag<6, KerberosTime>>, f_nonce: Tag<7, Integer>) -> (r: Result<KdcReqBody, KerlabError>)
    requires
        i <= cs@.len(),
        Tag::<0, KDCOptions>::view_wf(f_kdc_options.deep_view()),
        (match f_cname {
            Some(x) => Tag::<1, PrincipalName>::view_wf(x.deep_view()),
            None => true,
        }),
        Tag::<2, Realm>::view_wf(f_realm.deep_view()),
        (match f_sname {
            Some(x) => Tag::<3, PrincipalName>::view_wf(x.deep_view()),
            None => true,
        }),
        (match f_from {
            Some(x) => Tag::<4, KerberosTime>::view_wf(x.deep_view()),
            None => true,
        }),
        Tag::<5, KerberosTime>::view_wf(f_till.deep_view()),
        (match f_rtime {
            Some(x) => Tag::<6, KerberosTime>::view_wf(x.deep_view()),
            None => true,
        }),
        Tag::<7, Integer>::view_wf(f_nonce.deep_view()),
    ensures
        match r {
            Ok(x) => kdc_req_body_read_8(crate::der::view_list(cs@).skip(i as int), f_kdc_options.deep_view(), f_cname.deep_view(), f_realm.deep_view(), f_sname.deep_view(), f_from.deep_view(), f_till.deep_view(), f_rtime.deep_view(), f_nonce.deep_view()) == Some(x.deep_view())
                && KdcReqBody::view_wf(x.deep_view()),
            Err(e) => kdc_req_body_read_8(crate::der::view_list(cs@).skip(i as int), f_kdc_options.deep_view(), f_cname.deep_view(), f_realm.deep_view(), f_sname.deep_view(), f_from.deep_view(), f_till.deep_view(), f_rtime.deep_view(), f_nonce.deep_view()) is None
                && e.spec_kind() == KerlabErrorKind::Parsing,
        },
{
    proof {
        crate::der::lemma_view_list(cs@);
    }
    let ghost vl = crate::der::view_list(cs@);
    if i >= cs.len() {
        proof {
            assert(vl.skip(i as int).len() == 0);
        }
        return Err(KerlabError::new(KerlabErrorKind::Parsing, "missing field"));
    }
    proof {
        assert(vl.skip(i as int)[0] == vl[i as int]);
        assert(vl[i as int] == cs@[i as int]@);
    }
    let x = match Tag::<8, SequenceOf<Integer>>::from_value(&cs[i]) {
        Ok(x) => x,
        Err(e) => {
            return Err(e);
        },
    };
    proof {
        lemma_skip_skip(vl, i as int);
    }
    let r = kdc_req_body_parse_9(cs, i + 1, f_kdc_options, f_cname, f_realm, f_sname, f_from, f_till, f_rtime, f_nonce, x);
    proof {
        assert(kdc_req_body_read_8(vl.skip(i as int), f_kdc_options.deep_view(), f_cname.deep_view(), f_realm.deep_view(), f_sname.deep_view(), f_from.deep_view(), f_till.deep_view(), f_rtime.deep_view(), f_nonce.deep_view()) == kdc_req_body_read_9(vl.skip(i + 1), f_kdc_options.deep_view(), f_cname.deep_view(), f_realm.deep_view(), f_sname.deep_view(), f_from.deep_view(), f_till.deep_view(), f_rtime.deep_view(), f_nonce.deep_view(), x.deep_view()));
    }
    r
}

/// Read the fields of a [`KdcReqBody`] from field 7 on.
fn kdc_req_body_parse_7(cs: &Vec<Asn1Value>, i: usize, f_kdc_options: Tag<0, KDCOptions>, f_cname: Option<Tag<1, PrincipalName>>, f_realm: Tag<2, Realm>, f_sname: Option<Tag<3, PrincipalName>>, f_from: Option<Tag<4, KerberosTime>>, f_till: Tag<5, KerberosTime>, f_rtime: Option<Tag<6, KerberosTime>>) -> (r: Result<KdcReqBody, KerlabError>)
    requires
        i <= cs@.len(),
        Tag::<0, KDCOptions>::view_wf(f_kdc_options.deep_view()),
        (match f_cname {
            Some(x) => Tag::<1, PrincipalName>::view_wf(x.deep_view()),
            None => true,
        }),
        Tag::<2, Realm>::view_wf(f_realm.deep_view()),
        (match f_sname {
            Some(x) => Tag::<3, PrincipalName>::view_wf(x.deep_view()),
            None => true,
        }),
        (match f_from {
            Some(x) => Tag::<4, KerberosTime>::view_wf(x.deep_view()),
            None => true,
        }),
        Tag::<5, KerberosTime>::view_wf(f_till.deep_view()),
        (match f_rtime {
            Some(x) => Tag::<6, KerberosTime>::view_wf(x.deep_view()),
            None => true,
        }),
    ensures
        match r {
            Ok(x) => kdc_req_body_read_7(crate::der::view_list(cs@).skip(i as int), f_kdc_options.deep_view(), f_cname.deep_view(), f_realm.deep_view(), f_sname.deep_view(), f_from.deep_view(), f_till.deep_view(), f_rtime.deep_view()) == Some(x.deep_view())
                && KdcReqBody::view_wf(x.deep_view()),
            Err(e) => kdc_req_body_read_7(crate::der::view_list(cs@).skip(i as int), f_kdc_options.deep_view(), f_cname.deep_view(), f_realm.deep_view(), f_sname.deep_view(), f_from.deep_view(), f_till.deep_view(), f_rtime.deep_view()) is None
                && e.spec_kind() == KerlabErrorKind::Parsing,
        },
{
    proof {
        crate::der::lemma_view_list(cs@);
    }
    let ghost vl = crate::der::view_list(cs@);
    if i >= cs.len() {
        proof {
            assert(vl.skip(i as int).len() == 0);
        }
        return Err(KerlabError::new(KerlabErrorKind::Parsing, "missing field"));
    }
    proof {
        assert(vl.skip(i as int)[0] == vl[i as int]);
        assert(vl[i as int] == cs@[i as int]@);
    }
    let x = match Tag::<7, Integer>::from_value(&cs[i]) {
        Ok(x) => x,
        Err(e) => {
            return Err(e);
        },
    };
    proof {
        lemma_skip_skip(vl, i as int);
    }
    let r = kdc_req_body_parse_8(cs, i + 1, f_kdc_options, f_cname, f_realm, f_sname, f_from, f_till, f_rtime, x);
    proof {
        assert(kdc_req_body_read_7(vl.skip(i as int), f_kdc_options.deep_view(), f_cname.deep_view(), f_realm.deep_view(), f_sname.deep_view(), f_from.deep_view(), f_till.deep_view(), f_rtime.deep_view()) == kdc_req_body_read_8(vl.skip(i + 1), f_kdc_options.deep_view(), f_cname.deep_view(), f_realm.deep_view(), f_sname.deep_view(), f_from.deep_view(), f_till.deep_view(), f_rtime.deep_view(), x.deep_view()));
    }
    r
}

/// Read the fields of a [`KdcReqBody`] from field 6 on.
fn kdc_req_body_parse_6(cs: &Vec<Asn1Value>, i: usize, f_kdc_options: Tag<0, KDCOptions>, f_cname: Option<Tag<1, PrincipalName>>, f_realm: Tag<2, Realm>, f_sname: Option<Tag<3, PrincipalName>>, f_from: Option<Tag<4, KerberosTime>>, f_till: Tag<5, KerberosTime>) -> (r: Result<KdcReqBody, KerlabError>)
    requires
        i <= cs@.len(),
        Tag::<0, KDCOptions>::view_wf(f_kdc_options.deep_view()),
        (match f_cname {
            Some(x) => Tag::<1, PrincipalName>::view_wf(x.deep_view()),
            None => true,
        }),
        Tag::<2, Realm>::view_wf(f_realm.deep_view()),
        (match f_sname {
            Some(x) => Tag::<3, PrincipalName>::view_wf(x.deep_view()),
            None => true,
        }),
        (match f_from {
            Some(x) => Tag::<4, KerberosTime>::view_wf(x.deep_view()),
            None => true,
        }),
        Tag::<5, KerberosTime>::view_wf(f_till.deep_view()),
    ensures
        match r {
            Ok(x) => kdc_req_body_read_6(crate::der::view_list(cs@).skip(i as int), f_kdc_options.deep_view(), f_cname.deep_view(), f_realm.deep_view(), f_sname.deep_view(), f_from.deep_view(), f_till.deep_view()) == Some(x.deep_view())
                && KdcReqBody::view_wf(x.deep_view()),
            Err(e) => kdc_req_body_read_6(crate::der::view_list(cs@).skip(i as int), f_kdc_options.deep_view(), f_cname.deep_view(), f_realm.deep_view(), f_sname.deep_view(), f_from.deep_view(), f_till.deep_view()) is None
                && e.spec_kind() == KerlabErrorKind::Parsing,
        },
{
    proof {
        crate::der::lemma_view_list(cs@);
    }
    let ghost vl = crate::der::view_list(cs@);
    if i < cs.len() && is_ctx(&cs[i], 6) {
        proof {
            assert(vl.skip(i as int)[0] == vl[i as int]);
            assert(vl[i as int] == cs@[i as int]@);
        }
        let x = match Tag::<6, KerberosTime>::from_value(&cs[i]) {
            Ok(x) => x,
            Err(e) => {
                return Err(e);
            },
        };
        proof {
            lemma_skip_skip(vl, i as int);
        }
        let r = kdc_req_body_parse_7(cs, i + 1, f_kdc_options, f_cname, f_realm, f_sname, f_from, f_till, Some(x));
        proof {
            assert(kdc_req_body_read_6(vl.skip(i as int), f_kdc_options.deep_view(), f_cname.deep_view(), f_realm.deep_view(), f_sname.deep_view(), f_from.deep_view(), f_till.deep_view()) == kdc_req_body_read_7(vl.skip(i + 1), f_kdc_options.deep_view(), f_cname.deep_view(), f_realm.deep_view(), f_sname.deep_view(), f_from.deep_view(), f_till.deep_view(), Some(x).deep_view()));
        }
        r
    } else {
        proof {
            if i < cs@.len() {
                assert(vl.skip(i as int)[0] == vl[i as int]);
                assert(vl[i as int] == cs@[i as int]@);
            }
        }
        let r = kdc_req_body_parse_7(cs, i, f_kdc_options, f_cname, f_realm, f_sname, f_from, f_till, None);
        proof {
            assert(kdc_req_body_read_6(vl.skip(i as int), f_kdc_options.deep_view(), f_cname.deep_view(), f_realm.deep_view(), f_sname.deep_view(), f_from.deep_view(), f_till.deep_view()) == kdc_req_body_read_7(vl.skip(i as int), f_kdc_options.deep_view(), f_cname.deep_view(), f_realm.deep_view(), f_sname.deep_view(), f_from.deep_view(), f_till.deep_view(), None::<Tag<6, KerberosTime>>.deep_view()));
        }
        r
    }
}

/// Read the fields of a [`KdcReqBody`] from field 5 on.
fn kdc_req_body_parse_5(cs: &Vec<Asn1Value>, i: usize, f_kdc_options: Tag<0, KDCOptions>, f_cname: Option<Tag<1, PrincipalName>>, f_realm: Tag<2, Realm>, f_sname: Option<Tag<3, PrincipalName>>, f_from: Option<Tag<4, KerberosTime>>) -> (r: Result<KdcReqBody, KerlabError>)
    requires
        i <= cs@.len(),
        Tag::<0, KDCOptions>::view_wf(f_kdc_options.deep_view()),
        (match f_cname {
            Some(x) => Tag::<1, PrincipalName>::view_wf(x.deep_view()),
            None => true,
        }),
        Tag::<2, Realm>::view_wf(f_realm.deep_view()),
        (match f_sname {
            Some(x) => Tag::<3, PrincipalName>::view_wf(x.deep_view()),
            None => true,
        }),
        (match f_from {
            Some(x) => Tag::<4, KerberosTime>::view_wf(x.deep_view()),
            None => true,
        }),
    ensures
        match r {
            Ok(x) => kdc_req_body_read_5(crate::der::view_list(cs@).skip(i as int), f_kdc_options.deep_view(), f_cname.deep_view(), f_realm.deep_view(), f_sname.deep_view(), f_from.deep_view()) == Some(x.deep_view())
                && KdcReqBody::view_wf(x.deep_view()),
            Err(e) => kdc_req_body_read_5(crate::der::view_list(cs@).skip(i as int), f_kdc_options.deep_view(), f_cname.deep_view(), f_realm.deep_view(), f_sname.deep_view(), f_from.deep_view()) is None
                && e.spec_kind() == KerlabErrorKind::Parsing,
        },
{
    proof {
        crate::der::lemma_view_list(cs@);
    }
    let ghost vl = crate::der::view_list(cs@);
    if i >= cs.len() {
        proof {
            assert(vl.skip(i as int).len() == 0);
        }
        return Err(KerlabError::new(KerlabErrorKind::Parsing, "missing field"));
    }
    proof {
        assert(vl.skip(i as int)[0] == vl[i as int]);
        assert(vl[i as int] == cs@[i as int]@);
    }
    let x = match Tag::<5, KerberosTime>::from_value(&cs[i]) {
        Ok(x) => x,
        Err(e) => {
            return Err(e);
        },
    };
    proof {
        lemma_skip_skip(vl, i as int);
    }
    let r = kdc_req_body_parse_6(cs, i + 1, f_kdc_options, f_cname, f_realm, f_sname, f_from, x);
    proof {
        assert(kdc_req_body_read_5(vl.skip(i as int), f_kdc_options.deep_view(), f_cname.deep_view(), f_realm.deep_view(), f_sname.deep_view(), f_from.deep_view()) == kdc_req_body_read_6(vl.skip(i + 1), f_kdc_options.deep_view(), f_cname.deep_view(), f_realm.deep_view(), f_sname.deep_view(), f_from.deep_view(), x.deep_view()));
    }
    r
}

/// Read the fields of a [`KdcReqBody`] from field 4 on.
fn kdc_req_body_parse_4(cs: &Vec<Asn1Value>, i: usize, f_kdc_options: Tag<0, KDCOptions>, f_cname: Option<Tag<1, PrincipalName>>, f_realm: Tag<2, Realm>, f_sname: Option<Tag<3, PrincipalName>>) -> (r: Result<KdcReqBody, KerlabError>)
    requires
        i <= cs@.len(),
        Tag::<0, KDCOptions>::view_wf(f_kdc_options.deep_view()),
        (match f_cname {
            Some(x) => Tag::<1, PrincipalName>::view_wf(x.deep_view()),
            None => true,
        }),
        Tag::<2, Realm>::view_wf(f_realm.deep_view()),
        (match f_sname {
            Some(x) => Tag::<3, PrincipalName>::view_wf(x.deep_view()),
            None => true,
        }),
    ensures
        match r {
            Ok(x) => kdc_req_body_read_4(crate::der::view_list(cs@).skip(i as int), f_kdc_options.deep_view(), f_cname.deep_view(), f_realm.deep_view(), f_sname.deep_view()) == Some(x.deep_view())
                && KdcReqBody::view_wf(x.deep_view()),
            Err(e) => kdc_req_body_read_4(crate::der::view_list(cs@).skip(i as int), f_kdc_options.deep_view(), f_cname.deep_view(), f_realm.deep_view(), f_sname.deep_view()) is None
                && e.spec_kind() == KerlabErrorKind::Parsing,
        },
{
    proof {
        crate::der::lemma_view_list(cs@);
    }
    let ghost vl = crate::der::view_list(cs@);
    if i < cs.len() && is_ctx(&cs[i], 4) {
        proof {
            assert(vl.skip(i as int)[0] == vl[i as int]);
            assert(vl[i as int] == cs@[i as int]@);
        }
        let x = match Tag::<4, KerberosTime>::from_value(&cs[i]) {
            Ok(x) => x,
            Err(e) => {
                return Err(e);
            },
        };
        proof {
            lemma_skip_skip(vl, i as int);
        }
        let r = kdc_req_body_parse_5(cs, i + 1, f_kdc_options, f_cname, f_realm, f_sname, Some(x));
        proof {
            assert(kdc_req_body_read_4(vl.skip(i as int), f_kdc_options.deep_view(), f_cname.deep_view(), f_realm.deep_view(), f_sname.deep_view()) == kdc_req_body_read_5(vl.skip(i + 1), f_kdc_options.deep_view(), f_cname.deep_view(), f_realm.deep_view(), f_sname.deep_view(), Some(x).deep_view()));
        }
        r
    } else {
        proof {
            if i < cs@.len() {
                assert(vl.skip(i as int)[0] == vl[i as int]);
                assert(vl[i as int] == cs@[i as int]@);
            }
        }
        let r = kdc_req_body_parse_5(cs, i, f_kdc_options, f_cname, f_realm, f_sname, None);
        proof {
            assert(kdc_req_body_read_4(vl.skip(i as int), f_kdc_options.deep_view(), f_cname.deep_view(), f_realm.deep_view(), f_sname.deep_view()) == kdc_req_body_read_5(vl.skip(i as int), f_kdc_options.deep_view(), f_cname.deep_view(), f_realm.deep_view(), f_sname.deep_view(), None::<Tag<4, KerberosTime>>.deep_view()));
        }
        r
    }
}

/// Read the fields of a [`KdcReqBody`] from field 3 on.
fn kdc_req_body_parse_3(cs: &Vec<Asn1Value>, i: usize, f_kdc_options: Tag<0, KDCOptions>, f_cname: Option<Tag<1, PrincipalName>>, f_realm: Tag<2, Realm>) -> (r: Result<KdcReqBody, KerlabError>)
    requires
        i <= cs@.len(),
        Tag::<0, KDCOptions>::view_wf(f_kdc_options.deep_view()),
        (match f_cname {
            Some(x) => Tag::<1, PrincipalName>::view_wf(x.deep_view()),
            None => true,
        }),
        Tag::<2, Realm>::view_wf(f_realm.deep_view()),
    ensures
        match r {
            Ok(x) => kdc_req_body_read_3(crate::der::view_list(cs@).skip(i as int), f_kdc_options.deep_view(), f_cname.deep_view(), f_realm.deep_view()) == Some(x.deep_view())
                && KdcReqBody::view_wf(x.deep_view()),
            Err(e) => kdc_req_body_read_3(crate::der::view_list(cs@).skip(i as int), f_kdc_options.deep_view(), f_cname.deep_view(), f_realm.deep_view()) is None
                && e.spec_kind() == KerlabErrorKind::Parsing,
        },
{
    proof {
        crate::der::lemma_view_list(cs@);
    }
    let ghost vl = crate::der::view_list(cs@);
    if i < cs.len() && is_ctx(&cs[i], 3) {
        proof {
            assert(vl.skip(i as int)[0] == vl[i as int]);
            assert(vl[i as int] == cs@[i as int]@);
        }
        let x = match Tag::<3, PrincipalName>::from_value(&cs[i]) {
            Ok(x) => x,
            Err(e) => {
                return Err(e);
            },
        };
        proof {
            lemma_skip_skip(vl, i as int);
        }
        let r = kdc_req_body_parse_4(cs, i + 1, f_kdc_options, f_cname, f_realm, Some(x));
        proof {
            assert(kdc_req_body_read_3(vl.skip(i as int), f_kdc_options.deep_view(), f_cname.deep_view(), f_realm.deep_view()) == kdc_req_body_read_4(vl.skip(i + 1), f_kdc_options.deep_view(), f_cname.deep_view(), f_realm.deep_view(), Some(x).deep_view()));
        }
        r
    } else {
        proof {
            if i < cs@.len() {
                assert(vl.skip(i as int)[0] == vl[i as int]);
                assert(vl[i as int] == cs@[i as int]@);
            }
        }
        let r = kdc_req_body_parse_4(cs, i, f_kdc_options, f_cname, f_realm, None);
        proof {
            assert(kdc_req_body_read_3(vl.skip(i as int), f_kdc_options.deep_view(), f_cname.deep_view(), f_realm.deep_view()) == kdc_req_body_read_4(vl.skip(i as int), f_kdc_options.deep_view(), f_cname.deep_view(), f_realm.deep_view(), None::<Tag<3, PrincipalName>>.deep_view()));
        }
        r
    }
}

/// Read the fields of a [`KdcReqBody`] from field 2 on.
fn kdc_req_body_parse_2(cs: &Vec<Asn1Value>, i: usize, f_kdc_options: Tag<0, KDCOptions>, f_cname: Option<Tag<1, PrincipalName>>) -> (r: Result<KdcReqBody, KerlabError>)
    requires
        i <= cs@.len(),
        Tag::<0, KDCOptions>::view_wf(f_kdc_options.deep_view()),
        (match f_cname {
            Some(x) => Tag::<1, PrincipalName>::view_wf(x.deep_view()),
            None => true,
        }),
    ensures
        match r {
            Ok(x) => kdc_req_body_read_2(crate::der::view_list(cs@).skip(i as int), f_kdc_options.deep_view(), f_cname.deep_view()) == Some(x.deep_view())
                && KdcReqBody::view_wf(x.deep_view()),
            Err(e) => kdc_req_body_read_2(crate::der::view_list(cs@).skip(i as int), f_kdc_options.deep_view(), f_cname.deep_view()) is None
                && e.spec_kind() == KerlabErrorKind::Parsing,
        },
{
    proof {
        crate::der::lemma_view_list(cs@);
    }
    let ghost vl = crate::der::view_list(cs@);
    if i >= cs.len() {
        proof {
            assert(vl.skip(i as int).len() == 0);
        }
        return Err(KerlabError::new(KerlabErrorKind::Parsing, "missing field"));
    }
    proof {
        assert(vl.skip(i as int)[0] == vl[i as int]);
        assert(vl[i as int] == cs@[i as int]@);
    }
    let x = match Tag::<2, Realm>::from_value(&cs[i]) {
        Ok(x) => x,
        Err(e) => {
            return Err(e);
        },
    };
    proof {
        lemma_skip_skip(vl, i as int);
    }
    let r = kdc_req_body_parse_3(cs, i + 1, f_kdc_options, f_cname, x);
    proof {
        assert(kdc_req_body_read_2(vl.skip(i as int), f_kdc_options.deep_view(), f_cname.deep_view()) == kdc_req_body_read_3(vl.skip(i + 1), f_kdc_options.deep_view(), f_cname.deep_view(), x.deep_view()));
    }
    r
}

/// Read the fields of a [`KdcReqBody`] from field 1 on.
fn kdc_req_body_parse_1(cs: &Vec<Asn1Value>, i: usize, f_kdc_options: Tag<0, KDCOptions>) -> (r: Result<KdcReqBody, KerlabError>)
    requires
        i <= cs@.len(),
        Tag::<0, KDCOptions>::view_wf(f_kdc_options.deep_view()),
    ensures
        match r {
            Ok(x) => kdc_req_body_read_1(crate::der::view_list(cs@).skip(i as int), f_kdc_options.deep_view()) == Some(x.deep_view())
                && KdcReqBody::view_wf(x.deep_view()),
            Err(e) => kdc_req_body_read_1(crate::der::view_list(cs@).skip(i as int), f_kdc_options.deep_view()) is None
                && e.spec_kind() == KerlabErrorKind::Parsing,
        },
{
    proof {
        crate::der::lemma_view_list(cs@);
    }
    let ghost vl = crate::der::view_list(cs@);
    if i < cs.len() && is_ctx(&cs[i], 1) {
        proof {
            assert(vl.skip(i as int)[0] == vl[i as int]);
            assert(vl[i as int] == cs@[i as int]@);
        }
        let x = match Tag::<1, PrincipalName>::from_value(&cs[i]) {
            Ok(x) => x,
            Err(e) => {
                return Err(e);
            },
        };
        proof {
            lemma_skip_skip(vl, i as int);
        }
        let r = kdc_req_body_parse_2(cs, i + 1, f_kdc_options, Some(x));
        proof {
            assert(kdc_req_body_read_1(vl.skip(i as int), f_kdc_options.deep_view()) == kdc_req_body_read_2(vl.skip(i + 1), f_kdc_options.deep_view(), Some(x).deep_view()));
        }
        r
    } else {
        proof {
            if i < cs@.len() {
                assert(vl.skip(i as int)[0] == vl[i as int]);
                assert(vl[i as int] == cs@[i as int]@);
            }
        }
        let r = kdc_req_body_parse_2(cs, i, f_kdc_options, None);
        proof {
            assert(kdc_req_body_read_1(vl.skip(i as int), f_kdc_options.deep_view()) == kdc_req_body_read_2(vl.skip(i as int), f_kdc_options.deep_view(), None::<Tag<1, PrincipalName>>.deep_view()));
        }
        r
    }
}

/// Read the fields of a [`KdcReqBody`] from field 0 on.
fn kdc_req_body_parse_0(cs: &Vec<Asn1Value>, i: usize) -> (r: Result<KdcReqBody, KerlabError>)
    requires
        i <= cs@.len(),
    ensures
        match r {
            Ok(x) => kdc_req_body_read_0(crate::der::view_list(cs@).skip(i as int)) == Some(x.deep_view())
                && KdcReqBody::view_wf(x.deep_view()),
            Err(e) => kdc_req_body_read_0(crate::der::view_list(cs@).skip(i as int)) is None
                && e.spec_kind() == KerlabErrorKind::Parsing,
        },
{
    proof {
        crate::der::lemma_view_list(cs@);
    }
    let ghost vl = crate::der::view_list(cs@);
    if i >= cs.len() {
        proof {
            assert(vl.skip(i as int).len() == 0);
        }
        return Err(KerlabError::new(KerlabErrorKind::Parsing, "missing field"));
    }
    proof {
        assert(vl.skip(i as int)[0] == vl[i as int]);
        assert(vl[i as int] == cs@[i as int]@);
    }
    let x = match Tag::<0, KDCOptions>::from_value(&cs[i]) {
        Ok(x) => x,
        Err(e) => {
            return Err(e);
        },
    };
    proof {
        lemma_skip_skip(vl, i as int);
    }
    let r = kdc_req_body_parse_1(cs, i + 1, x);
    proof {
        assert(kdc_req_body_read_0(vl.skip(i as int)) == kdc_req_body_read_1(vl.skip(i + 1), x.deep_view()));
    }
    r
}

/// Reading no children past the last field yields the view back.
proof fn kdc_req_body_rt_12(v: KdcReqBodyView)
    requires
        KdcReqBody::view_wf(v),
    ensures
        kdc_req_body_read_12(kdc_req_body_write_12(v), v.kdc_options, v.cname, v.realm, v.sname, v.from, v.till, v.rtime, v.nonce, v.etype, v.addresses, v.enc_authorization_data, v.additional_tickets) == Some(v),
        forall|j: int| 0 <= j < kdc_req_body_write_12(v).len() ==> value_wf(#[trigger] kdc_req_body_write_12(v)[j]),
{
    assert(kdc_req_body_write_12(v).len() == 0);
    assert((KdcReqBodyView { kdc_options: v.kdc_options, cname: v.cname, realm: v.realm, sname: v.sname, from: v.from, till: v.till, rtime: v.rtime, nonce: v.nonce, etype: v.etype, addresses: v.addresses, enc_authorization_data: v.enc_authorization_data, additional_tickets: v.additional_tickets }) =~= v);
}

/// Reading the children written from field 11 on yields the view back.
proof fn kdc_req_body_rt_11(v: KdcReqBodyView)
    requires
        KdcReqBody::view_wf(v),
    ensures
        kdc_req_body_read_11(kdc_req_body_write_11(v), v.kdc_options, v.cname, v.realm, v.sname, v.from, v.till, v.rtime, v.nonce, v.etype, v.addresses, v.enc_authorization_data) == Some(v),
        forall|j: int| 0 <= j < kdc_req_body_write_11(v).len() ==> value_wf(#[trigger] kdc_req_body_write_11(v)[j]),
{
    kdc_req_body_rt_12(v);
    match v.additional_tickets {
        Some(x) => {
            Tag::<11, SequenceOf<Ticket>>::lemma_round_trip(x);
            assert(kdc_req_body_write_11(v) == seq![Tag::<11, SequenceOf<Ticket>>::spec_to_value(x)] + kdc_req_body_write_12(v));
            assert(kdc_req_body_write_11(v)[0] == Tag::<11, SequenceOf<Ticket>>::spec_to_value(x));
            assert(has_ctx(kdc_req_body_write_11(v)[0], 11));
            lemma_cons_skip(Tag::<11, SequenceOf<Ticket>>::spec_to_value(x), kdc_req_body_write_12(v));
            assert(kdc_req_body_read_11(kdc_req_body_write_11(v), v.kdc_options, v.cname, v.realm, v.sname, v.from, v.till, v.rtime, v.nonce, v.etype, v.addresses, v.enc_authorization_data) == kdc_req_body_read_12(kdc_req_body_write_12(v), v.kdc_options, v.cname, v.realm, v.sname, v.from, v.till, v.rtime, v.nonce, v.etype, v.addresses, v.enc_authorization_data, Some(x)));
            assert forall|j: int| 0 <= j < kdc_req_body_write_11(v).len() implies value_wf(#[trigger] kdc_req_body_write_11(v)[j]) by {
                if j >= 1 {
                    assert(kdc_req_body_write_11(v)[j] == kdc_req_body_write_12(v)[j - 1]);
                }
            }
        },
        None => {
            assert(kdc_req_body_write_11(v) == kdc_req_body_write_12(v));
            if kdc_req_body_write_12(v).len() > 0 {
                assert(!has_ctx(kdc_req_body_write_12(v)[0], 11));
            }
            assert(kdc_req_body_read_11(kdc_req_body_write_11(v), v.kdc_options, v.cname, v.realm, v.sname, v.from, v.till, v.rtime, v.nonce, v.etype, v.addresses, v.enc_authorization_data) == kdc_req_body_read_12(kdc_req_body_write_12(v), v.kdc_options, v.cname, v.realm, v.sname, v.from, v.till, v.rtime, v.nonce, v.etype, v.addresses, v.enc_authorization_data, None::<Seq<TicketBodyView>>));
        },
    }
}

/// Reading the children written from field 10 on yields the view back.
proof fn kdc_req_body_rt_10(v: KdcReqBodyView)
    requires
        KdcReqBody::view_wf(v),
    ensures
        kdc_req_body_read_10(kdc_req_body_write_10(v), v.kdc_options, v.cname, v.realm, v.sname, v.from, v.till, v.rtime, v.nonce, v.etype, v.addresses) == Some(v),
        forall|j: int| 0 <= j < kdc_req_body_write_10(v).len() ==> value_wf(#[trigger] kdc_req_body_write_10(v)[j]),
{
    kdc_req_body_rt_11(v);
    match v.enc_authorization_data {
        Some(x) => {
            Tag::<10, EncryptedData>::lemma_round_trip(x);
            assert(kdc_req_body_write_10(v) == seq![Tag::<10, EncryptedData>::spec_to_value(x)] + kdc_req_body_write_11(v));
            assert(kdc_req_body_write_10(v)[0] == Tag::<10, EncryptedData>::spec_to_value(x));
            assert(has_ctx(kdc_req_body_write_10(v)[0], 10));
            lemma_cons_skip(Tag::<10, EncryptedData>::spec_to_value(x), kdc_req_body_write_11(v));
            assert(kdc_req_body_read_10(kdc_req_body_write_10(v), v.kdc_options, v.cname, v.realm, v.sname, v.from, v.till, v.rtime, v.nonce, v.etype, v.addresses) == kdc_req_body_read_11(kdc_req_body_write_11(v), v.kdc_options, v.cname, v.realm, v.sname, v.from, v.till, v.rtime, v.nonce, v.etype, v.addresses, Some(x)));
            assert forall|j: int| 0 <= j < kdc_req_body_write_10(v).len() implies value_wf(#[trigger] kdc_req_body_write_10(v)[j]) by {
                if j >= 1 {
                    assert(kdc_req_body_write_10(v)[j] == kdc_req_body_write_11(v)[j - 1]);
                }
            }
        },
        None => {
            assert(kdc_req_body_write_10(v) == kdc_req_body_write_11(v));
            if kdc_req_body_write_11(v).len() > 0 {
                assert(!has_ctx(kdc_req_body_write_11(v)[0], 10));
            }
            assert(kdc_req_body_read_10(kdc_req_body_write_10(v), v.kdc_options, v.cname, v.realm, v.sname, v.from, v.till, v.rtime, v.nonce, v.etype, v.addresses) == kdc_req_body_read_11(kdc_req_body_write_11(v), v.kdc_options, v.cname, v.realm, v.sname, v.from, v.till, v.rtime, v.nonce, v.etype, v.addresses, None::<EncryptedDataView>));
        },
    }
}

/// Reading the children written from field 9 on yields the view back.
proof fn kdc_req_body_rt_9(v: KdcReqBodyView)
    requires
        KdcReqBody::view_wf(v),
    ensures
        kdc_req_body_read_9(kdc_req_body_write_9(v), v.kdc_options, v.cname, v.realm, v.sname, v.from, v.till, v.rtime, v.nonce, v.etype) == Some(v),
        forall|j: int| 0 <= j < kdc_req_body_write_9(v).len() ==> value_wf(#[trigger] kdc_req_body_write_9(v)[j]),
{
    kdc_req_body_rt_10(v);
    match v.addresses {
        Some(x) => {
            Tag::<9, HostAddresses>::lemma_round_trip(x);
            assert(kdc_req_body_write_9(v) == seq![Tag::<9, HostAddresses>::spec_to_value(x)] + kdc_req_body_write_10(v));
            assert(kdc_req_body_write_9(v)[0] == Tag::<9, HostAddresses>::spec_to_value(x));
            assert(has_ctx(kdc_req_body_write_9(v)[0], 9));
            lemma_cons_skip(Tag::<9, HostAddresses>::spec_to_value(x), kdc_req_body_write_10(v));
            assert(kdc_req_body_read_9(kdc_req_body_write_9(v), v.kdc_options, v.cname, v.realm, v.sname, v.from, v.till, v.rtime, v.nonce, v.etype) == kdc_req_body_read_10(kdc_req_body_write_10(v), v.kdc_options, v.cname, v.realm, v.sname, v.from, v.till, v.rtime, v.nonce, v.etype, Some(x)));
            assert forall|j: int| 0 <= j < kdc_req_body_write_9(v).len() implies value_wf(#[trigger] kdc_req_body_write_9(v)[j]) by {
                if j >= 1 {
                    assert(kdc_req_body_write_9(v)[j] == kdc_req_body_write_10(v)[j - 1]);
                }
            }
        },
        None => {
            assert(kdc_req_body_write_9(v) == kdc_req_body_write_10(v));
            if kdc_req_body_write_10(v).len() > 0 {
                assert(!has_ctx(kdc_req_body_write_10(v)[0], 9));
            }
            assert(kdc_req_body_read_9(kdc_req_body_write_9(v), v.kdc_options, v.cname, v.realm, v.sname, v.from, v.till, v.rtime, v.nonce, v.etype) == kdc_req_body_read_10(kdc_req_body_write_10(v), v.kdc_options, v.cname, v.realm, v.sname, v.from, v.till, v.rtime, v.nonce, v.etype, None::<Seq<HostAddressView>>));
        },
    }
}

/// Reading the children written from field 8 on yields the view back.
proof fn kdc_req_body_rt_8(v: KdcReqBodyView)
    requires
        KdcReqBody::view_wf(v),
    ensures
        kdc_req_body_read_8(kdc_req_body_write_8(v), v.kdc_options, v.cname, v.realm, v.sname, v.from, v.till, v.rtime, v.nonce) == Some(v),
        forall|j: int| 0 <= j < kdc_req_body_write_8(v).len() ==> value_wf(#[trigger] kdc_req_body_write_8(v)[j]),
{
    kdc_req_body_rt_9(v);
    Tag::<8, SequenceOf<Integer>>::lemma_round_trip(v.etype);
    assert(kdc_req_body_write_8(v) == seq![Tag::<8, SequenceOf<Integer>>::spec_to_value(v.etype)] + kdc_req_body_write_9(v));
    assert(kdc_req_body_write_8(v)[0] == Tag::<8, SequenceOf<Integer>>::spec_to_value(v.etype));
    assert(has_ctx(kdc_req_body_write_8(v)[0], 8));
    lemma_cons_skip(Tag::<8, SequenceOf<Integer>>::spec_to_value(v.etype), kdc_req_body_write_9(v));
    assert(kdc_req_body_read_8(kdc_req_body_write_8(v), v.kdc_options, v.cname, v.realm, v.sname, v.from, v.till, v.rtime, v.nonce) == kdc_req_body_read_9(kdc_req_body_write_9(v), v.kdc_options, v.cname, v.realm, v.sname, v.from, v.till, v.rtime, v.nonce, v.etype));
    assert forall|j: int| 0 <= j < kdc_req_body_write_8(v).len() implies value_wf(#[trigger] kdc_req_body_write_8(v)[j]) by {
        if j >= 1 {
            assert(kdc_req_body_write_8(v)[j] == kdc_req_body_write_9(v)[j - 1]);
        }
    }
}

/// Reading the children written from field 7 on yields the view back.
proof fn kdc_req_body_rt_7(v: KdcReqBodyView)
    requires
        KdcReqBody::view_wf(v),
    ensures
        kdc_req_body_read_7(kdc_req_body_write_7(v), v.kdc_options, v.cname, v.realm, v.sname, v.from, v.till, v.rtime) == Some(v),
        forall|j: int| 0 <= j < kdc_req_body_write_7(v).len() ==> value_wf(#[trigger] kdc_req_body_write_7(v)[j]),
{
    kdc_req_body_rt_8(v);
    Tag::<7, Integer>::lemma_round_trip(v.nonce);
    assert(kdc_req_body_write_7(v) == seq![Tag::<7, Integer>::spec_to_value(v.nonce)] + kdc_req_body_write_8(v));
    assert(kdc_req_body_write_7(v)[0] == Tag::<7, Integer>::spec_to_value(v.nonce));
    assert(has_ctx(kdc_req_body_write_7(v)[0], 7));
    lemma_cons_skip(Tag::<7, Integer>::spec_to_value(v.nonce), kdc_req_body_write_8(v));
    assert(kdc_req_body_read_7(kdc_req_body_write_7(v), v.kdc_options, v.cname, v.realm, v.sname, v.from, v.till, v.rtime) == kdc_req_body_read_8(kdc_req_body_write_8(v), v.kdc_options, v.cname, v.realm, v.sname, v.from, v.till, v.rtime, v.nonce));
    assert forall|j: int| 0 <= j < kdc_req_body_write_7(v).len() implies value_wf(#[trigger] kdc_req_body_write_7(v)[j]) by {
        if j >= 1 {
            assert(kdc_req_body_write_7(v)[j] == kdc_req_body_write_8(v)[j - 1]);
        }
    }
}

/// Reading the children written from field 6 on yields the view back.
proof fn kdc_req_body_rt_6(v: KdcReqBodyView)
    requires
        KdcReqBody::view_wf(v),
    ensures
        kdc_req_body_read_6(kdc_req_body_write_6(v), v.kdc_options, v.cname, v.realm, v.sname, v.from, v.till) == Some(v),
        forall|j: int| 0 <= j < kdc_req_body_write_6(v).len() ==> value_wf(#[trigger] kdc_req_body_write_6(v)[j]),
{
    kdc_req_body_rt_7(v);
    match v.rtime {
        Some(x) => {
            Tag::<6, KerberosTime>::lemma_round_trip(x);
            assert(kdc_req_body_write_6(v) == seq![Tag::<6, KerberosTime>::spec_to_value(x)] + kdc_req_body_write_7(v));
            assert(kdc_req_body_write_6(v)[0] == Tag::<6, KerberosTime>::spec_to_value(x));
            assert(has_ctx(kdc_req_body_write_6(v)[0], 6));
            lemma_cons_skip(Tag::<6, KerberosTime>::spec_to_value(x), kdc_req_body_write_7(v));
            assert(kdc_req_body_read_6(kdc_req_body_write_6(v), v.kdc_options, v.cname, v.realm, v.sname, v.from, v.till) == kdc_req_body_read_7(kdc_req_body_write_7(v), v.kdc_options, v.cname, v.realm, v.sname, v.from, v.till, Some(x)));
            assert forall|j: int| 0 <= j < kdc_req_body_write_6(v).len() implies value_wf(#[trigger] kdc_req_body_write_6(v)[j]) by {
                if j >= 1 {
                    assert(kdc_req_body_write_6(v)[j] == kdc_req_body_write_7(v)[j - 1]);
                }
            }
        },
        None => {
            assert(kdc_req_body_write_6(v) == kdc_req_body_write_7(v));
            if kdc_req_body_write_7(v).len() > 0 {
                assert(!has_ctx(kdc_req_body_write_7(v)[0], 6));
            }
            assert(kdc_req_body_read_6(kdc_req_body_write_6(v), v.kdc_options, v.cname, v.realm, v.sname, v.from, v.till) == kdc_req_body_read_7(kdc_req_body_write_7(v), v.kdc_options, v.cname, v.realm, v.sname, v.from, v.till, None::<GeneralizedTime>));
        },
    }
}

/// Reading the children written from field 5 on yields the view back.
proof fn kdc_req_body_rt_5(v: KdcReqBodyView)
    requires
        KdcReqBody::view_wf(v),
    ensures
        kdc_req_body_read_5(kdc_req_body_write_5(v), v.kdc_options, v.cname, v.realm, v.sname, v.from) == Some(v),
        forall|j: int| 0 <= j < kdc_req_body_write_5(v).len() ==> value_wf(#[trigger] kdc_req_body_write_5(v)[j]),
{
    kdc_req_body_rt_6(v);
    Tag::<5, KerberosTime>::lemma_round_trip(v.till);
    assert(kdc_req_body_write_5(v) == seq![Tag::<5, KerberosTime>::spec_to_value(v.till)] + kdc_req_body_write_6(v));
    assert(kdc_req_body_write_5(v)[0] == Tag::<5, KerberosTime>::spec_to_value(v.till));
    assert(has_ctx(kdc_req_body_write_5(v)[0], 5));
    lemma_cons_skip(Tag::<5, KerberosTime>::spec_to_value(v.till), kdc_req_body_write_6(v));
    assert(kdc_req_body_read_5(kdc_req_body_write_5(v), v.kdc_options, v.cname, v.realm, v.sname, v.from) == kdc_req_body_read_6(kdc_req_body_write_6(v), v.kdc_options, v.cname, v.realm, v.sname, v.from, v.till));
    assert forall|j: int| 0 <= j < kdc_req_body_write_5(v).len() implies value_wf(#[trigger] kdc_req_body_write_5(v)[j]) by {
        if j >= 1 {
            assert(kdc_req_body_write_5(v)[j] == kdc_req_body_write_6(v)[j - 1]);
        }
    }
}

/// Reading the children written from field 4 on yields the view back.
proof fn kdc_req_body_rt_4(v: KdcReqBodyView)
    requires
        KdcReqBody::view_wf(v),
    ensures
        kdc_req_body_read_4(kdc_req_body_write_4(v), v.kdc_options, v.cname, v.realm, v.sname) == Some(v),
        forall|j: int| 0 <= j < kdc_req_body_write_4(v).len() ==> value_wf(#[trigger] kdc_req_body_write_4(v)[j]),
{
    kdc_req_body_rt_5(v);
    match v.from {
        Some(x) => {
            Tag::<4, KerberosTime>::lemma_round_trip(x);
            assert(kdc_req_body_write_4(v) == seq![Tag::<4, KerberosTime>::spec_to_value(x)] + kdc_req_body_write_5(v));
            assert(kdc_req_body_write_4(v)[0] == Tag::<4, KerberosTime>::spec_to_value(x));
            assert(has_ctx(kdc_req_body_write_4(v)[0], 4));
            lemma_cons_skip(Tag::<4, KerberosTime>::spec_to_value(x), kdc_req_body_write_5(v));
            assert(kdc_req_body_read_4(kdc_req_body_write_4(v), v.kdc_options, v.cname, v.realm, v.sname) == kdc_req_body_read_5(kdc_req_body_write_5(v), v.kdc_options, v.cname, v.realm, v.sname, Some(x)));
            assert forall|j: int| 0 <= j < kdc_req_body_write_4(v).len() implies value_wf(#[trigger] kdc_req_body_write_4(v)[j]) by {
                if j >= 1 {
                    assert(kdc_req_body_write_4(v)[j] == kdc_req_body_write_5(v)[j - 1]);
                }
            }
        },
        None => {
            assert(kdc_req_body_write_4(v) == kdc_req_body_write_5(v));
            if kdc_req_body_write_5(v).len() > 0 {
                assert(!has_ctx(kdc_req_body_write_5(v)[0], 4));
            }
            assert(kdc_req_body_read_4(kdc_req_body_write_4(v), v.kdc_options, v.cname, v.realm, v.sname) == kdc_req_body_read_5(kdc_req_body_write_5(v), v.kdc_options, v.cname, v.realm, v.sname, None::<GeneralizedTime>));
        },
    }
}

/// Reading the children written from field 3 on yields the view back.
proof fn kdc_req_body_rt_3(v: KdcReqBodyView)
    requires
        KdcReqBody::view_wf(v),
    ensures
        kdc_req_body_read_3(kdc_req_body_write_3(v), v.kdc_options, v.cname, v.realm) == Some(v),
        forall|j: int| 0 <= j < kdc_req_body_write_3(v).len() ==> value_wf(#[trigger] kdc_req_body_write_3(v)[j]),
{
    kdc_req_body_rt_4(v);
    match v.sname {
        Some(x) => {
            Tag::<3, PrincipalName>::lemma_round_trip(x);
            assert(kdc_req_body_write_3(v) == seq![Tag::<3, PrincipalName>::spec_to_value(x)] + kdc_req_body_write_4(v));
            assert(kdc_req_body_write_3(v)[0] == Tag::<3, PrincipalName>::spec_to_value(x));
            assert(has_ctx(kdc_req_body_write_3(v)[0], 3));
            lemma_cons_skip(Tag::<3, PrincipalName>::spec_to_value(x), kdc_req_body_write_4(v));
            assert(kdc_req_body_read_3(kdc_req_body_write_3(v), v.kdc_options, v.cname, v.realm) == kdc_req_body_read_4(kdc_req_body_write_4(v), v.kdc_options, v.cname, v.realm, Some(x)));
            assert forall|j: int| 0 <= j < kdc_req_body_write_3(v).len() implies value_wf(#[trigger] kdc_req_body_write_3(v)[j]) by {
                if j >= 1 {
                    assert(kdc_req_body_write_3(v)[j] == kdc_req_body_write_4(v)[j - 1]);
                }
            }
        },
        None => {
            assert(kdc_req_body_write_3(v) == kdc_req_body_write_4(v));
            if kdc_req_body_write_4(v).len() > 0 {
                assert(!has_ctx(kdc_req_body_write_4(v)[0], 3));
            }
            assert(kdc_req_body_read_3(kdc_req_body_write_3(v), v.kdc_options, v.cname, v.realm) == kdc_req_body_read_4(kdc_req_body_write_4(v), v.kdc_options, v.cname, v.realm, None::<PrincipalNameView>));
        },
    }
}

/// Reading the children written from field 2 on yields the view back.
proof fn kdc_req_body_rt_2(v: KdcReqBodyView)
    requires
        KdcReqBody::view_wf(v),
    ensures
        kdc_req_body_read_2(kdc_req_body_write_2(v), v.kdc_options, v.cname) == Some(v),
        forall|j: int| 0 <= j < kdc_req_body_write_2(v).len() ==> value_wf(#[trigger] kdc_req_body_write_2(v)[j]),
{
    kdc_req_body_rt_3(v);
    Tag::<2, Realm>::lemma_round_trip(v.realm);
    assert(kdc_req_body_write_2(v) == seq![Tag::<2, Realm>::spec_to_value(v.realm)] + kdc_req_body_write_3(v));
    assert(kdc_req_body_write_2(v)[0] == Tag::<2, Realm>::spec_to_value(v.realm));
    assert(has_ctx(kdc_req_body_write_2(v)[0], 2));
    lemma_cons_skip(Tag::<2, Realm>::spec_to_value(v.realm), kdc_req_body_write_3(v));
    assert(kdc_req_body_read_2(kdc_req_body_write_2(v), v.kdc_options, v.cname) == kdc_req_body_read_3(kdc_req_body_write_3(v), v.kdc_options, v.cname, v.realm));
    assert forall|j: int| 0 <= j < kdc_req_body_write_2(v).len() implies value_wf(#[trigger] kdc_req_body_write_2(v)[j]) by {
        if j >= 1 {
            assert(kdc_req_body_write_2(v)[j] == kdc_req_body_write_3(v)[j - 1]);
        }
    }
}

/// Reading the children written from field 1 on yields the view back.
proof fn kdc_req_body_rt_1(v: KdcReqBodyView)
    requires
        KdcReqBody::view_wf(v),
    ensures
        kdc_req_body_read_1(kdc_req_body_write_1(v), v.kdc_options) == Some(v),
        forall|j: int| 0 <= j < kdc_req_body_write_1(v).len() ==> value_wf(#[trigger] kdc_req_body_write_1(v)[j]),
{
    kdc_req_body_rt_2(v);
    match v.cname {
        Some(x) => {
            Tag::<1, PrincipalName>::lemma_round_trip(x);
            assert(kdc_req_body_write_1(v) == seq![Tag::<1, PrincipalName>::spec_to_value(x)] + kdc_req_body_write_2(v));
            assert(kdc_req_body_write_1(v)[0] == Tag::<1, PrincipalName>::spec_to_value(x));
            assert(has_ctx(kdc_req_body_write_1(v)[0], 1));
            lemma_cons_skip(Tag::<1, PrincipalName>::spec_to_value(x), kdc_req_body_write_2(v));
            assert(kdc_req_body_read_1(kdc_req_body_write_1(v), v.kdc_options) == kdc_req_body_read_2(kdc_req_body_write_2(v), v.kdc_options, Some(x)));
            assert forall|j: int| 0 <= j < kdc_req_body_write_1(v).len() implies value_wf(#[trigger] kdc_req_body_write_1(v)[j]) by {
                if j >= 1 {
                    assert(kdc_req_body_write_1(v)[j] == kdc_req_body_write_2(v)[j - 1]);
                }
            }
        },
        None => {
            assert(kdc_req_body_write_1(v) == kdc_req_body_write_2(v));
            if kdc_req_body_write_2(v).len() > 0 {
                assert(!has_ctx(kdc_req_body_write_2(v)[0], 1));
            }
            assert(kdc_req_body_read_1(kdc_req_body_write_1(v), v.kdc_options) == kdc_req_body_read_2(kdc_req_body_write_2(v), v.kdc_options, None::<PrincipalNameView>));
        },
    }
}

/// Reading the children written from field 0 on yields the view back.
proof fn kdc_req_body_rt_0(v: KdcReqBodyView)
    requires
        KdcReqBody::view_wf(v),
    ensures
        kdc_req_body_read_0(kdc_req_body_write_0(v)) == Some(v),
        forall|j: int| 0 <= j < kdc_req_body_write_0(v).len() ==> value_wf(#[trigger] kdc_req_body_write_0(v)[j]),
{
    kdc_req_body_rt_1(v);
    Tag::<0, KDCOptions>::lemma_round_trip(v.kdc_options);
    assert(kdc_req_body_write_0(v) == seq![Tag::<0, KDCOptions>::spec_to_value(v.kdc_options)] + kdc_req_body_write_1(v));
    assert(kdc_req_body_write_0(v)[0] == Tag::<0, KDCOptions>::spec_to_value(v.kdc_options));
    assert(has_ctx(kdc_req_body_write_0(v)[0], 0));
    lemma_cons_skip(Tag::<0, KDCOptions>::spec_to_value(v.kdc_options), kdc_req_body_write_1(v));
    assert(kdc_req_body_read_0(kdc_req_body_write_0(v)) == kdc_req_body_read_1(kdc_req_body_write_1(v), v.kdc_options));
    assert forall|j: int| 0 <= j < kdc_req_body_write_0(v).len() implies value_wf(#[trigger] kdc_req_body_write_0(v)[j]) by {
        if j >= 1 {
            assert(kdc_req_body_write_0(v)[j] == kdc_req_body_write_1(v)[j - 1]);
        }
    }
}

/// An AS-REQ: `[APPLICATION 10]` around a KDC-REQ.
pub type AsReq = Application<10, KdcReq>;

/// A TGS-REQ: `[APPLICATION 12]` around a KDC-REQ.
pub type TgsReq = Application<12, KdcReq>;

/// The KDC option bits, as the 32-bit masks they occupy in the big-endian
/// packed option word.
#[derive(Clone, Copy, Debug, PartialEq, Eq, Structural)]
pub enum KdcOptionsType {
    Validate,
    Renew,
    Unused29,
    EncTktInsKey,
    RenewableOk,
    DisableTransitedCheck,
    Unused16,
    ConstrainedDelegation,
    Canonocalize,
    CNameInAddLTkt,
    OkAsDelegate,
    Unused12,
    OpthardwareAuth,
    PreAuthent,
    Initial,
    Renewable,
    Unused7,
    PostDated,
    AllowPostDate,
    Proxy,
    Proxiable,
    Forwarded,
    Forwardable,
    Reserved,
}

impl KdcOptionsType {
    /// The mask this option occupies in the packed 32-bit option word.
    pub open spec fn spec_value(&self) -> u32 {
        match self {
            KdcOptionsType::Validate => 0x00000001,
            KdcOptionsType::Renew => 0x00000002,
            KdcOptionsType::Unused29 => 0x00000004,
            KdcOptionsType::EncTktInsKey => 0x00000008,
            KdcOptionsType::RenewableOk => 0x00000010,
            KdcOptionsType::DisableTransitedCheck => 0x00000020,
            KdcOptionsType::Unused16 => 0x0000ffc0,
            KdcOptionsType::ConstrainedDelegation => 0x00020000,
            KdcOptionsType::Canonocalize => 0x00010000,
            KdcOptionsType::CNameInAddLTkt => 0x00004000,
            KdcOptionsType::OkAsDelegate => 0x00040000,
            KdcOptionsType::Unused12 => 0x00080000,
            KdcOptionsType::OpthardwareAuth => 0x00100000,
            KdcOptionsType::PreAuthent => 0x00200000,
            KdcOptionsType::Initial => 0x00400000,
            KdcOptionsType::Renewable => 0x00800000,
            KdcOptionsType::Unused7 => 0x01000000,
            KdcOptionsType::PostDated => 0x02000000,
            KdcOptionsType::AllowPostDate => 0x04000000,
            KdcOptionsType::Proxy => 0x08000000,
            KdcOptionsType::Proxiable => 0x10000000,
            KdcOptionsType::Forwarded => 0x20000000,
            KdcOptionsType::Forwardable => 0x40000000,
            KdcOptionsType::Reserved => 0x80000000,
        }
    }

    /// The mask this option occupies in the packed 32-bit option word.
    pub fn value(&self) -> (r: u32)
        ensures
            r == self.spec_value(),
    {
        match self {
            KdcOptionsType::Validate => 0x00000001,
            KdcOptionsType::Renew => 0x00000002,
            KdcOptionsType::Unused29 => 0x00000004,
            KdcOptionsType::EncTktInsKey => 0x00000008,
            KdcOptionsType::RenewableOk => 0x00000010,
            KdcOptionsType::DisableTransitedCheck => 0x00000020,
            KdcOptionsType::Unused16 => 0x0000ffc0,
            KdcOptionsType::ConstrainedDelegation => 0x00020000,
            KdcOptionsType::Canonocalize => 0x00010000,
            KdcOptionsType::CNameInAddLTkt => 0x00004000,
            KdcOptionsType::OkAsDelegate => 0x00040000,
            KdcOptionsType::Unused12 => 0x00080000,
            KdcOptionsType::OpthardwareAuth => 0x00100000,
            KdcOptionsType::PreAuthent => 0x00200000,
            KdcOptionsType::Initial => 0x00400000,
            KdcOptionsType::Renewable => 0x00800000,
            KdcOptionsType::Unused7 => 0x01000000,
            KdcOptionsType::PostDated => 0x02000000,
            KdcOptionsType::AllowPostDate => 0x04000000,
            KdcOptionsType::Proxy => 0x08000000,
            KdcOptionsType::Proxiable => 0x10000000,
            KdcOptionsType::Forwarded => 0x20000000,
            KdcOptionsType::Forwardable => 0x40000000,
            KdcOptionsType::Reserved => 0x80000000,
        }
    }

    /// The bitwise-or of the masks of a list of options.
    pub open spec fn spec_join(options: Seq<KdcOptionsType>) -> u32
        decreases options.len(),
    {
        if options.len() == 0 {
            0
        } else {
            Self::spec_join(options.drop_last()) | options.last().spec_value()
        }
    }

    /// Pack a list of options into the 32-bit option word: the bitwise-or
    /// of their masks.
    pub fn join(options: &[KdcOptionsType]) -> (r: u32)
        ensures
            r == Self::spec_join(options@),
    {
        let mut result: u32 = 0;
        let mut i: usize = 0;
        proof {
            assert(options@.take(0) =~= Seq::<KdcOptionsType>::empty());
        }
        while i < options.len()
            invariant
                i <= options@.len(),
                result == Self::spec_join(options@.take(i as int)),
            decreases options@.len() - i,
        {
            let e = *vstd::slice::slice_index_get(options, i);
            proof {
                assert(options@.take(i + 1).drop_last() =~= options@.take(i as int));
                assert(options@.take(i + 1).last() == options@[i as int]);
            }
            result = result | e.value();
            i += 1;
        }
        assert(options@.take(options@.len() as int) =~= options@);
        result
    }
}

/// The big-endian bytes of a 32-bit option word.
pub open spec fn be32(u: u32) -> Seq<u8> {
    seq![
        ((u / 0x100_0000) % 256) as u8,
        ((u / 0x1_0000) % 256) as u8,
        ((u / 256) % 256) as u8,
        (u % 256) as u8,
    ]
}

/// Write the big-endian bytes of a 32-bit word.
pub fn be32_to_bytes(u: u32) -> (r: Vec<u8>)
    ensures
        r@ == be32(u),
{
    let mut out: Vec<u8> = Vec::new();
    out.push(((u / 0x100_0000) % 256) as u8);
    out.push(((u / 0x1_0000) % 256) as u8);
    out.push(((u / 256) % 256) as u8);
    out.push((u % 256) as u8);
    assert(out@ =~= be32(u));
    out
}

impl KdcReqBody {
    /// Build the body of a KDC request: the packed options, the client and
    /// server names, the realm, a validity end, a fresh nonce, and RC4-HMAC
    /// as the only acceptable encryption type. A non-ASCII realm is
    /// rejected with a `Parsing` error.
    pub fn new(
        cname: PrincipalName,
        domain: &str,
        sname: PrincipalName,
        kdc_options: u32,
        till: KerberosTime,
    ) -> (r: KerlabResult<Self>)
        ensures
            match r {
                Ok(b) => {
                    &&& vstd::string::is_ascii(domain)
                    &&& b.deep_view().kdc_options == (crate::asn1::BitStringView {
                        unused: 0,
                        data: be32(kdc_options),
                    })
                    &&& b.deep_view().cname == Some(cname.deep_view())
                    &&& b.deep_view().realm == ascii_bytes(domain@)
                    &&& b.deep_view().sname == Some(sname.deep_view())
                    &&& b.deep_view().from is None
                    &&& b.deep_view().till == till
                    &&& b.deep_view().rtime is None
                    &&& b.deep_view().etype == seq![23u32]
                    &&& b.deep_view().addresses is None
                    &&& b.deep_view().enc_authorization_data is None
                    &&& b.deep_view().additional_tickets is None
                },
                Err(e) => !vstd::string::is_ascii(domain) && e.spec_kind()
                    == crate::error::KerlabErrorKind::Parsing,
            },
    {
        let realm = match GeneralString::from_str(domain) {
            Ok(g) => g,
            Err(e) => {
                return Err(e);
            },
        };
        let mut etype: Vec<Integer> = Vec::new();
        etype.push(23);
        assert(etype.deep_view() =~= seq![23u32]);
        Ok(
            KdcReqBody {
                kdc_options: Tag::new(BitString::from_bytes(be32_to_bytes(kdc_options).as_slice())),
                cname: Some(Tag::new(cname)),
                realm: Tag::new(realm),
                sname: Some(Tag::new(sname)),
                from: None,
                till: Tag::new(till),
                rtime: None,
                nonce: Tag::new(nonce()),
                etype: Tag::new(etype),
                addresses: None,
                enc_authorization_data: None,
                additional_tickets: None,
            },
        )
    }
}

impl AsReq {
    /// Build an AS-REQ for a ticket-granting ticket: the client principal
    /// is the user, the server principal is `krbtgt/<domain>`, the request
    /// is valid until a day from now, and no pre-authentication is
    /// attached. Non-ASCII domain or user names are rejected with a
    /// `Parsing` error.
    pub fn new(domain: &str, username: &str, options: &[KdcOptionsType]) -> (r: KerlabResult<
        AsReq,
    >)
        ensures
            match r {
                Ok(a) => {
                    &&& vstd::string::is_ascii(domain)
                    &&& vstd::string::is_ascii(username)
                    &&& a.deep_view().pvno == 5
                    &&& a.deep_view().msg_type == MessageType::KrbAsReq.spec_value()
                    &&& a.deep_view().padata is None
                    &&& a.deep_view().req_body.cname == Some(
                        PrincipalNameView {
                            name_type: PrincipalNameType::NtPrincipal.spec_value(),
                            name_string: seq![ascii_bytes(username@)],
                        },
                    )
                    &&& a.deep_view().req_body.realm == ascii_bytes(domain@)
                    &&& a.deep_view().req_body.sname == Some(
                        PrincipalNameView {
                            name_type: PrincipalNameType::NtSrvInst.spec_value(),
                            name_string: seq![ascii_bytes("krbtgt"@), ascii_bytes(domain@)],
                        },
                    )
                    &&& a.deep_view().req_body.kdc_options == (crate::asn1::BitStringView {
                        unused: 0,
                        data: be32(KdcOptionsType::spec_join(options@)),
                    })
                    &&& a.deep_view().req_body.etype == seq![23u32]
                    &&& a.deep_view().req_body.from is None
                    &&& a.deep_view().req_body.rtime is None
                    &&& a.deep_view().req_body.addresses is None
                    &&& a.deep_view().req_body.enc_authorization_data is None
                    &&& a.deep_view().req_body.additional_tickets is None
                    &&& a.deep_view().req_body.till.wf()
                    &&& <AsReq as Asn1Data>::view_wf(a.deep_view())
                },
                Err(e) => (!vstd::string::is_ascii(domain) || !vstd::string::is_ascii(username))
                    && e.spec_kind() == crate::error::KerlabErrorKind::Parsing,
            },
    {
        let user = match GeneralString::from_str(username) {
            Ok(g) => g,
            Err(e) => {
                return Err(e);
            },
        };
        proof {
            reveal_strlit("krbtgt");
            assert(vstd::string::is_ascii("krbtgt")) by {
                assert(forall|i: int|
                    0 <= i < "krbtgt"@.len() ==> '\0' <= #[trigger] "krbtgt"@[i] <= '\u{7f}');
            }
        }
        let krbtgt = match GeneralString::from_str("krbtgt") {
            Ok(g) => g,
            Err(e) => {
                assert(false);
                return Err(e);
            },
        };
        let dom = match GeneralString::from_str(domain) {
            Ok(g) => g,
            Err(e) => {
                return Err(e);
            },
        };
        let mut user_labels: Vec<GeneralString> = Vec::new();
        user_labels.push(user);
        let mut tgt_labels: Vec<GeneralString> = Vec::new();
        tgt_labels.push(krbtgt);
        tgt_labels.push(dom);
        proof {
            assert(user_labels.deep_view() =~= seq![ascii_bytes(username@)]);
            assert(tgt_labels.deep_view() =~= seq![ascii_bytes("krbtgt"@), ascii_bytes(domain@)]);
        }
        let cname = PrincipalName::new(PrincipalNameType::NtPrincipal, user_labels);
        let sname = PrincipalName::new(PrincipalNameType::NtSrvInst, tgt_labels);
        let body = match KdcReqBody::new(
            cname,
            domain,
            sname,
            KdcOptionsType::join(options),
            now_plus_days(1),
        ) {
            Ok(b) => b,
            Err(e) => {
                return Err(e);
            },
        };
        Ok(
            Application {
                inner: KdcReq {
                    pvno: Tag::new(5),
                    msg_type: Tag::new(MessageType::KrbAsReq.value()),
                    padata: None,
                    req_body: Tag::new(body),
                },
            },
        )
    }

    /// Attach a PA-ENC-TIMESTAMP entry encrypted under the client key, for
    /// KDCs that demand pre-authentication.
    pub fn with_preauth(self, key: &EncryptionKey) -> (r: KerlabResult<Self>)
        ensures
            match r {
                Ok(a) => {
                    &&& a.deep_view().req_body == self.deep_view().req_body
                    &&& a.deep_view().pvno == self.deep_view().pvno
                    &&& a.deep_view().msg_type == self.deep_view().msg_type
                    &&& (a.deep_view().padata matches Some(pas) && pas.drop_last() == (match self
                        .deep_view().padata {
                        Some(old_pas) => old_pas,
                        None => Seq::<PaDataView>::empty(),
                    }) && pas.len() >= 1 && pas.last().padata_type
                        == PaDataType::PaEncTimestamp.spec_value())
                },
                Err(e) => key.deep_view().keytype != 0 && key.deep_view().keytype != 23
                    && e.spec_kind() == crate::error::KerlabErrorKind::Crypto,
            },
    {
        let entry = match PaData::pa_enc_timestamp(key) {
            Ok(p) => p,
            Err(e) => {
                return Err(e);
            },
        };
        let mut me = self;
        let ghost entry_view = entry.deep_view();
        match &mut me.inner.padata {
            Some(tagged) => {
                let ghost before = tagged.inner.deep_view();
                tagged.inner.push(entry);
                proof {
                    assert(tagged.inner.deep_view() =~= before.push(entry_view));
                    assert(before.push(entry_view).drop_last() =~= before);
                }
            },
            None => {
                let mut list: Vec<PaData> = Vec::new();
                list.push(entry);
                proof {
                    assert(list.deep_view() =~= seq![entry_view]);
                    assert(seq![entry_view].drop_last() =~= Seq::<PaDataView>::empty());
                }
                me.inner.padata = Some(Tag::new(list));
            },
        }
        Ok(me)
    }
}

impl TgsReq {
    /// Build a TGS-REQ for a service ticket: the pre-authentication carries
    /// the DER of the AP-REQ that proves the ticket-granting ticket, and
    /// the body asks for `sname` in the realm. Non-ASCII domain or user
    /// names are rejected with a `Parsing` error.
    pub fn new(
        domain: &str,
        username: &str,
        sname: PrincipalName,
        ap_req: &ApReq,
        options: &[KdcOptionsType],
    ) -> (r: KerlabResult<TgsReq>)
        requires
            <ApReq as Asn1Data>::view_wf(ap_req.deep_view()),
        ensures
            match r {
                Ok(a) => {
                    &&& vstd::string::is_ascii(domain)
                    &&& vstd::string::is_ascii(username)
                    &&& a.deep_view().pvno == 5
                    &&& a.deep_view().msg_type == MessageType::KrbTgsReq.spec_value()
                    &&& a.deep_view().padata == Some(
                        seq![
                            PaDataView {
                                padata_type: PaDataType::PaTgsReq.spec_value(),
                                padata_value: crate::asn1::spec_to_der::<ApReq>(
                                    ap_req.deep_view(),
                                ),
                            },
                        ],
                    )
                    &&& a.deep_view().req_body.realm == ascii_bytes(domain@)
                    &&& a.deep_view().req_body.cname == Some(
                        PrincipalNameView {
                            name_type: PrincipalNameType::NtPrincipal.spec_value(),
                            name_string: seq![ascii_bytes(username@)],
                        },
                    )
                    &&& a.deep_view().req_body.sname == Some(sname.deep_view())
                    &&& a.deep_view().req_body.kdc_options == (crate::asn1::BitStringView {
                        unused: 0,
                        data: be32(KdcOptionsType::spec_join(options@)),
                    })
                    &&& a.deep_view().req_body.etype == seq![23u32]
                    &&& a.deep_view().req_body.from is None
                    &&& a.deep_view().req_body.rtime is None
                    &&& a.deep_view().req_body.addresses is None
                    &&& a.deep_view().req_body.enc_authorization_data is None
                    &&& a.deep_view().req_body.additional_tickets is None
                    &&& a.deep_view().req_body.till.wf()
                },
                Err(e) => (!vstd::string::is_ascii(domain) || !vstd::string::is_ascii(username))
                    && e.spec_kind() == crate::error::KerlabErrorKind::Parsing,
            },
    {
        let user = match GeneralString::from_str(username) {
            Ok(g) => g,
            Err(e) => {
                return Err(e);
            },
        };
        let mut user_labels: Vec<GeneralString> = Vec::new();
        user_labels.push(user);
        proof {
            assert(user_labels.deep_view() =~= seq![ascii_bytes(username@)]);
        }
        let cname = PrincipalName::new(PrincipalNameType::NtPrincipal, user_labels);
        let body = match KdcReqBody::new(
            cname,
            domain,
            sname,
            KdcOptionsType::join(options),
            now_plus_days(1),
        ) {
            Ok(b) => b,
            Err(e) => {
                return Err(e);
            },
        };
        let entry = PaData::new(PaDataType::PaTgsReq, ap_req);
        let mut list: Vec<PaData> = Vec::new();
        let ghost entry_view = entry.deep_view();
        list.push(entry);
        proof {
            assert(list.deep_view() =~= seq![entry_view]);
        }
        Ok(
            Application {
                inner: KdcReq {
                    pvno: Tag::new(5),
                    msg_type: Tag::new(MessageType::KrbTgsReq.value()),
                    padata: Some(Tag::new(list)),
                    req_body: Tag::new(body),
                },
            },
        )
    }

    /// Attach the S4U2self PA-FOR-USER entry: ask for a ticket on behalf of
    /// `user_name`.
    pub fn for_user(self, user_name: PrincipalName, user_realm: Realm, key: &EncryptionKey) -> (r:
        KerlabResult<Self>)
        requires
            PrincipalName::view_wf(user_name.deep_view()),
            GeneralString::view_wf(user_realm.deep_view()),
        ensures
            match r {
                Ok(a) => {
                    &&& a.deep_view().req_body == self.deep_view().req_body
                    &&& a.deep_view().pvno == self.deep_view().pvno
                    &&& a.deep_view().msg_type == self.deep_view().msg_type
                    &&& (a.deep_view().padata matches Some(pas) && pas.drop_last() == (match self
                        .deep_view().padata {
                        Some(old_pas) => old_pas,
                        None => Seq::<PaDataView>::empty(),
                    }) && pas.len() >= 1 && pas.last() == (PaDataView {
                        padata_type: PaDataType::PaForUserType.spec_value(),
                        padata_value: crate::asn1::spec_to_der::<crate::padata::PaForUser>(
                            PaForUserView {
                                user_name: user_name.deep_view(),
                                user_realm: user_realm.deep_view(),
                                cksum: crate::checksum::ChecksumView {
                                    cksumtype: -138i32,
                                    checksum: crate::checksum::spec_kerberos_hmac_md5(
                                        key.deep_view().keyvalue,
                                        17,
                                        crate::padata::s4u_checksum_input(
                                            user_name.deep_view(),
                                            user_realm.deep_view(),
                                        ),
                                    ),
                                },
                                auth_package: crate::padata::auth_package_bytes(),
                            },
                        ),
                    }))
                },
                Err(_) => false,
            },
    {
        let ghost name_view = user_name.deep_view();
        let ghost realm_view = user_realm.deep_view();
        let entry = match PaData::pa_for_user(user_name, user_realm, key) {
            Ok(p) => p,
            Err(e) => {
                assert(false);
                return Err(e);
            },
        };
        let mut me = self;
        let ghost entry_view = entry.deep_view();
        match &mut me.inner.padata {
            Some(tagged) => {
                let ghost before = tagged.inner.deep_view();
                tagged.inner.push(entry);
                proof {
                    assert(tagged.inner.deep_view() =~= before.push(entry_view));
                    assert(before.push(entry_view).drop_last() =~= before);
                }
            },
            None => {
                let mut list: Vec<PaData> = Vec::new();
                list.push(entry);
                proof {
                    assert(list.deep_view() =~= seq![entry_view]);
                    assert(seq![entry_view].drop_last() =~= Seq::<PaDataView>::empty());
                }
                me.inner.padata = Some(Tag::new(list));
            },
        }
        Ok(me)
    }
}

} // verus!