//! The AP-REQ message: a ticket presented to a service together with an
//! encrypted authenticator (RFC 1510 section 5.5.1).

use vstd::prelude::*;

verus! {

use crate::asn1::{
    Asn1Data, lemma_concat_nil, lemma_cons_skip, lemma_nil_concat, lemma_skip_skip, lemma_snoc_concat, BitStringView, GeneralString, Integer, OctetString, SequenceOf, SInteger, Tag,
    has_ctx, is_ctx,
};
use crate::base::{KerberosTime, Realm};
use crate::der::{AsnValue, Asn1Value, GeneralizedTime, value_wf};
use crate::error::{KerlabError, KerlabErrorKind};

use crate::asn1::{Application, BitString};
use crate::base::{MessageType, PrincipalNameView};
use crate::encryption::{EncryptedData, EncryptedDataView};
use crate::ticket::{Ticket, TicketBodyView};

/// The AP-REQ body (`pvno[0], msg-type[1], ap-options[2], ticket[3], authenticator[4]`).
#[derive(Debug, Clone, PartialEq, Default)]
pub struct ApReqBody {
    pub pvno: Tag<0, Integer>,
    pub msg_type: Tag<1, Integer>,
    pub ap_options: Tag<2, APOptions>,
    pub ticket: Tag<3, Ticket>,
    pub authenticator: Tag<4, EncryptedData>,
}

/// The deep view of [`ApReqBody`].
#[verifier::ext_equal]
pub struct ApReqBodyView {
    pub pvno: u32,
    pub msg_type: u32,
    pub ap_options: BitStringView,
    pub ticket: TicketBodyView,
    pub authenticator: EncryptedDataView,
}

impl DeepView for ApReqBody {
    type V = ApReqBodyView;

    open spec fn deep_view(&self) -> ApReqBodyView {
        ApReqBodyView {
            pvno: self.pvno.deep_view(),
            msg_type: self.msg_type.deep_view(),
            ap_options: self.ap_options.deep_view(),
            ticket: self.ticket.deep_view(),
            authenticator: self.authenticator.deep_view(),
        }
    }
}

/// The children a [`ApReqBody`] writes from its field 0 on.
pub open spec fn ap_req_body_write_0(v: ApReqBodyView) -> Seq<AsnValue> {
    seq![Tag::<0, Integer>::spec_to_value(v.pvno)] + ap_req_body_write_1(v)
}

/// The children a [`ApReqBody`] writes from its field 1 on.
pub open spec fn ap_req_body_write_1(v: ApReqBodyView) -> Seq<AsnValue> {
    seq![Tag::<1, Integer>::spec_to_value(v.msg_type)] + ap_req_body_write_2(v)
}

/// The children a [`ApReqBody`] writes from its field 2 on.
pub open spec fn ap_req_body_write_2(v: ApReqBodyView) -> Seq<AsnValue> {
    seq![Tag::<2, APOptions>::spec_to_value(v.ap_options)] + ap_req_body_write_3(v)
}

/// The children a [`ApReqBody`] writes from its field 3 on.
pub open spec fn ap_req_body_write_3(v: ApReqBodyView) -> Seq<AsnValue> {
    seq![Tag::<3, Ticket>::spec_to_value(v.ticket)] + ap_req_body_write_4(v)
}

/// The children a [`ApReqBody`] writes from its field 4 on.
pub open spec fn ap_req_body_write_4(v: ApReqBodyView) -> Seq<AsnValue> {
    seq![Tag::<4, EncryptedData>::spec_to_value(v.authenticator)] + ap_req_body_write_5(v)
}

/// The children a [`ApReqBody`] writes past its last field: none.
pub open spec fn ap_req_body_write_5(v: ApReqBodyView) -> Seq<AsnValue> {
    Seq::empty()
}

/// Read the fields of a [`ApReqBody`] from field 0 on.
pub open spec fn ap_req_body_read_0(cs: Seq<AsnValue>) -> Option<ApReqBodyView> {
    if cs.len() > 0 {
        match Tag::<0, Integer>::spec_from_value(cs[0]) {
            Some(f) => ap_req_body_read_1(cs.skip(1), f),
            None => None,
        }
    } else {
        None
    }
}

/// Read the fields of a [`ApReqBody`] from field 1 on.
pub open spec fn ap_req_body_read_1(cs: Seq<AsnValue>, f_pvno: u32) -> Option<ApReqBodyView> {
    if cs.len() > 0 {
        match Tag::<1, Integer>::spec_from_value(cs[0]) {
            Some(f) => ap_req_body_read_2(cs.skip(1), f_pvno, f),
            None => None,
        }
    } else {
        None
    }
}

/// Read the fields of a [`ApReqBody`] from field 2 on.
pub open spec fn ap_req_body_read_2(cs: Seq<AsnValue>, f_pvno: u32, f_msg_type: u32) -> Option<ApReqBodyView> {
    if cs.len() > 0 {
        match Tag::<2, APOptions>::spec_from_value(cs[0]) {
            Some(f) => ap_req_body_read_3(cs.skip(1), f_pvno, f_msg_type, f),
            None => None,
        }
    } else {
        None
    }
}

/// Read the fields of a [`ApReqBody`] from field 3 on.
pub open spec fn ap_req_body_read_3(cs: Seq<AsnValue>, f_pvno: u32, f_msg_type: u32, f_ap_options: BitStringView) -> Option<ApReqBodyView> {
    if cs.len() > 0 {
        match Tag::<3, Ticket>::spec_from_value(cs[0]) {
            Some(f) => ap_req_body_read_4(cs.skip(1), f_pvno, f_msg_type, f_ap_options, f),
            None => None,
        }
    } else {
        None
    }
}

/// Read the fields of a [`ApReqBody`] from field 4 on.
pub open spec fn ap_req_body_read_4(cs: Seq<AsnValue>, f_pvno: u32, f_msg_type: u32, f_ap_options: BitStringView, f_ticket: TicketBodyView) -> Option<ApReqBodyView> {
    if cs.len() > 0 {
        match Tag::<4, EncryptedData>::spec_from_value(cs[0]) {
            Some(f) => ap_req_body_read_5(cs.skip(1), f_pvno, f_msg_type, f_ap_options, f_ticket, f),
            None => None,
        }
    } else {
        None
    }
}

/// Past the last field of a [`ApReqBody`]: the children must be spent.
pub open spec fn ap_req_body_read_5(cs: Seq<AsnValue>, f_pvno: u32, f_msg_type: u32, f_ap_options: BitStringView, f_ticket: TicketBodyView, f_authenticator: EncryptedDataView) -> Option<ApReqBodyView> {
    if cs.len() == 0 {
        Some(ApReqBodyView {
            pvno: f_pvno,
            msg_type: f_msg_type,
            ap_options: f_ap_options,
            ticket: f_ticket,
            authenticator: f_authenticator,
        })
    } else {
        None
    }
}

impl Asn1Data for ApReqBody {
    open spec fn view_wf(v: ApReqBodyView) -> bool {
        Tag::<0, Integer>::view_wf(v.pvno)
            && Tag::<1, Integer>::view_wf(v.msg_type)
            && Tag::<2, APOptions>::view_wf(v.ap_options)
            && Tag::<3, Ticket>::view_wf(v.ticket)
            && Tag::<4, EncryptedData>::view_wf(v.authenticator)
    }

    open spec fn spec_to_value(v: ApReqBodyView) -> AsnValue {
        AsnValue::Sequence(ap_req_body_write_0(v))
    }

    open spec fn spec_from_value(a: AsnValue) -> Option<ApReqBodyView> {
        match a {
            AsnValue::Sequence(cs) => ap_req_body_read_0(cs),
            _ => None,
        }
    }

    fn to_value(&self) -> (r: Asn1Value) {
        let ghost v = self.deep_view();
        let mut children: Vec<Asn1Value> = Vec::new();
        let ghost mut gc: Seq<AsnValue> = Seq::empty();
        proof {
            assert(crate::der::view_list(children@) =~= gc);
            lemma_nil_concat(ap_req_body_write_0(v));
            assert(ap_req_body_write_0(v) == gc + ap_req_body_write_0(v));
        }
        let ghost ch_prev0 = children@;
        let ghost gc_prev0 = gc;
        children.push(self.pvno.to_value());
        proof {
            assert(children@.drop_last() =~= ch_prev0);
            gc = gc.push(Tag::<0, Integer>::spec_to_value(self.pvno.deep_view()));
            assert(crate::der::view_list(children@) == gc);
            assert(ap_req_body_write_0(v) == seq![Tag::<0, Integer>::spec_to_value(self.pvno.deep_view())] + ap_req_body_write_1(v));
            lemma_snoc_concat(gc_prev0, Tag::<0, Integer>::spec_to_value(self.pvno.deep_view()), ap_req_body_write_1(v));
            assert(ap_req_body_write_0(v) == gc + ap_req_body_write_1(v));
        }
        let ghost ch_prev1 = children@;
        let ghost gc_prev1 = gc;
        children.push(self.msg_type.to_value());
        proof {
            assert(children@.drop_last() =~= ch_prev1);
            gc = gc.push(Tag::<1, Integer>::spec_to_value(self.msg_type.deep_view()));
            assert(crate::der::view_list(children@) == gc);
            assert(ap_req_body_write_1(v) == seq![Tag::<1, Integer>::spec_to_value(self.msg_type.deep_view())] + ap_req_body_write_2(v));
            lemma_snoc_concat(gc_prev1, Tag::<1, Integer>::spec_to_value(self.msg_type.deep_view()), ap_req_body_write_2(v));
            assert(ap_req_body_write_0(v) == gc + ap_req_body_write_2(v));
        }
        let ghost ch_prev2 = children@;
        let ghost gc_prev2 = gc;
        children.push(self.ap_options.to_value());
        proof {
            assert(children@.drop_last() =~= ch_prev2);
            gc = gc.push(Tag::<2, APOptions>::spec_to_value(self.ap_options.deep_view()));
            assert(crate::der::view_list(children@) == gc);
            assert(ap_req_body_write_2(v) == seq![Tag::<2, APOptions>::spec_to_value(self.ap_options.deep_view())] + ap_req_body_write_3(v));
            lemma_snoc_concat(gc_prev2, Tag::<2, APOptions>::spec_to_value(self.ap_options.deep_view()), ap_req_body_write_3(v));
            assert(ap_req_body_write_0(v) == gc + ap_req_body_write_3(v));
        }
        let ghost ch_prev3 = children@;
        let ghost gc_prev3 = gc;
        children.push(self.ticket.to_value());
        proof {
            assert(children@.drop_last() =~= ch_prev3);
            gc = gc.push(Tag::<3, Ticket>::spec_to_value(self.ticket.deep_view()));
            assert(crate::der::view_list(children@) == gc);
            assert(ap_req_body_write_3(v) == seq![Tag::<3, Ticket>::spec_to_value(self.ticket.deep_view())] + ap_req_body_write_4(v));
            lemma_snoc_concat(gc_prev3, Tag::<3, Ticket>::spec_to_value(self.ticket.deep_view()), ap_req_body_write_4(v));
            assert(ap_req_body_write_0(v) == gc + ap_req_body_write_4(v));
        }
        let ghost ch_prev4 = children@;
        let ghost gc_prev4 = gc;
        children.push(self.authenticator.to_value());
        proof {
            assert(children@.drop_last() =~= ch_prev4);
            gc = gc.push(Tag::<4, EncryptedData>::spec_to_value(self.authenticator.deep_view()));
            assert(crate::der::view_list(children@) == gc);
            assert(ap_req_body_write_4(v) == seq![Tag::<4, EncryptedData>::spec_to_value(self.authenticator.deep_view())] + ap_req_body_write_5(v));
            lemma_snoc_concat(gc_prev4, Tag::<4, EncryptedData>::spec_to_value(self.authenticator.deep_view()), ap_req_body_write_5(v));
            assert(ap_req_body_write_0(v) == gc + ap_req_body_write_5(v));
        }
        proof {
            assert(ap_req_body_write_5(v) == Seq::<AsnValue>::empty());
            lemma_concat_nil(gc);
            assert(AsnValue::Sequence(gc) == Self::spec_to_value(v));
        }
        Asn1Value::Sequence(children)
    }

    fn from_value(a: &Asn1Value) -> (r: Result<Self, KerlabError>) {
        match a {
            Asn1Value::Sequence(cs) => {
                proof {
                    crate::der::lemma_view_list(cs@);
                }
                let ghost vl = crate::der::view_list(cs@);
                proof {
                    assert(vl.skip(0) =~= vl);
                    assert(Self::spec_from_value(a@) == ap_req_body_read_0(vl.skip(0)));
                }
                let n = cs.len();
                let mut i: usize = 0;
                if i >= n {
                    proof {
                        assert(vl.skip(i as int).len() == 0);
                    }
                    return Err(KerlabError::new(KerlabErrorKind::Parsing, "missing field"));
                }
                proof {
                    assert(vl.skip(i as int)[0] == vl[i as int]);
                    assert(vl[i as int] == cs@[i as int]@);
                }
                let f_pvno = match Tag::<0, Integer>::from_value(&cs[i]) {
                    Ok(x) => x,
                    Err(e) => {
                        return Err(e);
                    },
                };
                proof {
                    lemma_skip_skip(vl, i as int);
                }
                i += 1;
                proof {
                    assert(Self::spec_from_value(a@) == ap_req_body_read_1(vl.skip(i as int), f_pvno.deep_view()));
                }
                if i >= n {
                    proof {
                        assert(vl.skip(i as int).len() == 0);
                    }
                    return Err(KerlabError::new(KerlabErrorKind::Parsing, "missing field"));
                }
                proof {
                    assert(vl.skip(i as int)[0] == vl[i as int]);
                    assert(vl[i as int] == cs@[i as int]@);
                }
                let f_msg_type = match Tag::<1, Integer>::from_value(&cs[i]) {
                    Ok(x) => x,
                    Err(e) => {
                        return Err(e);
                    },
                };
                proof {
                    lemma_skip_skip(vl, i as int);
                }
                i += 1;
                proof {
                    assert(Self::spec_from_value(a@) == ap_req_body_read_2(vl.skip(i as int), f_pvno.deep_view(), f_msg_type.deep_view()));
                }
                if i >= n {
                    proof {
                        assert(vl.skip(i as int).len() == 0);
                    }
                    return Err(KerlabError::new(KerlabErrorKind::Parsing, "missing field"));
                }
                proof {
                    assert(vl.skip(i as int)[0] == vl[i as int]);
                    assert(vl[i as int] == cs@[i as int]@);
                }
                let f_ap_options = match Tag::<2, APOptions>::from_value(&cs[i]) {
                    Ok(x) => x,
                    Err(e) => {
                        return Err(e);
                    },
                };
                proof {
                    lemma_skip_skip(vl, i as int);
                }
                i += 1;
                proof {
                    assert(Self::spec_from_value(a@) == ap_req_body_read_3(vl.skip(i as int), f_pvno.deep_view(), f_msg_type.deep_view(), f_ap_options.deep_view()));
                }
                if i >= n {
                    proof {
                        assert(vl.skip(i as int).len() == 0);
                    }
                    return Err(KerlabError::new(KerlabErrorKind::Parsing, "missing field"));
                }
                proof {
                    assert(vl.skip(i as int)[0] == vl[i as int]);
                    assert(vl[i as int] == cs@[i as int]@);
                }
                let f_ticket = match Tag::<3, Ticket>::from_value(&cs[i]) {
                    Ok(x) => x,
                    Err(e) => {
                        return Err(e);
                    },
                };
                proof {
                    lemma_skip_skip(vl, i as int);
                }
                i += 1;
                proof {
                    assert(Self::spec_from_value(a@) == ap_req_body_read_4(vl.skip(i as int), f_pvno.deep_view(), f_msg_type.deep_view(), f_ap_options.deep_view(), f_ticket.deep_view()));
                }
                if i >= n {
                    proof {
                        assert(vl.skip(i as int).len() == 0);
                    }
                    return Err(KerlabError::new(KerlabErrorKind::Parsing, "missing field"));
                }
                proof {
                    assert(vl.skip(i as int)[0] == vl[i as int]);
                    assert(vl[i as int] == cs@[i as int]@);
                }
                let f_authenticator = match Tag::<4, EncryptedData>::from_value(&cs[i]) {
                    Ok(x) => x,
                    Err(e) => {
                        return Err(e);
                    },
                };
                proof {
                    lemma_skip_skip(vl, i as int);
                }
                i += 1;
                proof {
                    assert(Self::spec_from_value(a@) == ap_req_body_read_5(vl.skip(i as int), f_pvno.deep_view(), f_msg_type.deep_view(), f_ap_options.deep_view(), f_ticket.deep_view(), f_authenticator.deep_view()));
                }
                if i != n {
                    return Err(KerlabError::new(KerlabErrorKind::Parsing, "unexpected extra field"));
                }
                proof {
                    assert(vl.skip(i as int).len() == 0);
                }
                Ok(ApReqBody {
                    pvno: f_pvno,
                    msg_type: f_msg_type,
                    ap_options: f_ap_options,
                    ticket: f_ticket,
                    authenticator: f_authenticator,
                })
            },
            _ => Err(KerlabError::new(KerlabErrorKind::Parsing, "expected a sequence")),
        }
    }

    proof fn lemma_round_trip(v: ApReqBodyView) {
        ap_req_body_rt_0(v);
        assert(Self::spec_from_value(Self::spec_to_value(v)) == Some(v));
    }
}

/// Reading no children past the last field yields the view back.
proof fn ap_req_body_rt_5(v: ApReqBodyView)
    requires
        ApReqBody::view_wf(v),
    ensures
        ap_req_body_read_5(ap_req_body_write_5(v), v.pvno, v.msg_type, v.ap_options, v.ticket, v.authenticator) == Some(v),
        forall|j: int| 0 <= j < ap_req_body_write_5(v).len() ==> value_wf(#[trigger] ap_req_body_write_5(v)[j]),
{
    assert(ap_req_body_write_5(v).len() == 0);
    assert((ApReqBodyView { pvno: v.pvno, msg_type: v.msg_type, ap_options: v.ap_options, ticket: v.ticket, authenticator: v.authenticator }) =~= v);
}

/// Reading the children written from field 4 on yields the view back.
proof fn ap_req_body_rt_4(v: ApReqBodyView)
    requires
        ApReqBody::view_wf(v),
    ensures
        ap_req_body_read_4(ap_req_body_write_4(v), v.pvno, v.msg_type, v.ap_options, v.ticket) == Some(v),
        forall|j: int| 0 <= j < ap_req_body_write_4(v).len() ==> value_wf(#[trigger] ap_req_body_write_4(v)[j]),
{
    ap_req_body_rt_5(v);
    Tag::<4, EncryptedData>::lemma_round_trip(v.authenticator);
    assert(ap_req_body_write_4(v) == seq![Tag::<4, EncryptedData>::spec_to_value(v.authenticator)] + ap_req_body_write_5(v));
    assert(ap_req_body_write_4(v)[0] == Tag::<4, EncryptedData>::spec_to_value(v.authenticator));
    assert(has_ctx(ap_req_body_write_4(v)[0], 4));
    lemma_cons_skip(Tag::<4, EncryptedData>::spec_to_value(v.authenticator), ap_req_body_write_5(v));
    assert(ap_req_body_read_4(ap_req_body_write_4(v), v.pvno, v.msg_type, v.ap_options, v.ticket) == ap_req_body_read_5(ap_req_body_write_5(v), v.pvno, v.msg_type, v.ap_options, v.ticket, v.authenticator));
    assert forall|j: int| 0 <= j < ap_req_body_write_4(v).len() implies value_wf(#[trigger] ap_req_body_write_4(v)[j]) by {
        if j >= 1 {
            assert(ap_req_body_write_4(v)[j] == ap_req_body_write_5(v)[j - 1]);
        }
    }
}

/// Reading the children written from field 3 on yields the view back.
proof fn ap_req_body_rt_3(v: ApReqBodyView)
    requires
        ApReqBody::view_wf(v),
    ensures
        ap_req_body_read_3(ap_req_body_write_3(v), v.pvno, v.msg_type, v.ap_options) == Some(v),
        forall|j: int| 0 <= j < ap_req_body_write_3(v).len() ==> value_wf(#[trigger] ap_req_body_write_3(v)[j]),
{
    ap_req_body_rt_4(v);
    Tag::<3, Ticket>::lemma_round_trip(v.ticket);
    assert(ap_req_body_write_3(v) == seq![Tag::<3, Ticket>::spec_to_value(v.ticket)] + ap_req_body_write_4(v));
    assert(ap_req_body_write_3(v)[0] == Tag::<3, Ticket>::spec_to_value(v.ticket));
    assert(has_ctx(ap_req_body_write_3(v)[0], 3));
    lemma_cons_skip(Tag::<3, Ticket>::spec_to_value(v.ticket), ap_req_body_write_4(v));
    assert(ap_req_body_read_3(ap_req_body_write_3(v), v.pvno, v.msg_type, v.ap_options) == ap_req_body_read_4(ap_req_body_write_4(v), v.pvno, v.msg_type, v.ap_options, v.ticket));
    assert forall|j: int| 0 <= j < ap_req_body_write_3(v).len() implies value_wf(#[trigger] ap_req_body_write_3(v)[j]) by {
        if j >= 1 {
            assert(ap_req_body_write_3(v)[j] == ap_req_body_write_4(v)[j - 1]);
        }
    }
}

/// Reading the children written from field 2 on yields the view back.
proof fn ap_req_body_rt_2(v: ApReqBodyView)
    requires
        ApReqBody::view_wf(v),
    ensures
        ap_req_body_read_2(ap_req_body_write_2(v), v.pvno, v.msg_type) == Some(v),
        forall|j: int| 0 <= j < ap_req_body_write_2(v).len() ==> value_wf(#[trigger] ap_req_body_write_2(v)[j]),
{
    ap_req_body_rt_3(v);
    Tag::<2, APOptions>::lemma_round_trip(v.ap_options);
    assert(ap_req_body_write_2(v) == seq![Tag::<2, APOptions>::spec_to_value(v.ap_options)] + ap_req_body_write_3(v));
    assert(ap_req_body_write_2(v)[0] == Tag::<2, APOptions>::spec_to_value(v.ap_options));
    assert(has_ctx(ap_req_body_write_2(v)[0], 2));
    lemma_cons_skip(Tag::<2, APOptions>::spec_to_value(v.ap_options), ap_req_body_write_3(v));
    assert(ap_req_body_read_2(ap_req_body_write_2(v), v.pvno, v.msg_type) == ap_req_body_read_3(ap_req_body_write_3(v), v.pvno, v.msg_type, v.ap_options));
    assert forall|j: int| 0 <= j < ap_req_body_write_2(v).len() implies value_wf(#[trigger] ap_req_body_write_2(v)[j]) by {
        if j >= 1 {
            assert(ap_req_body_write_2(v)[j] == ap_req_body_write_3(v)[j - 1]);
        }
    }
}

/// Reading the children written from field 1 on yields the view back.
proof fn ap_req_body_rt_1(v: ApReqBodyView)
    requires
        ApReqBody::view_wf(v),
    ensures
        ap_req_body_read_1(ap_req_body_write_1(v), v.pvno) == Some(v),
        forall|j: int| 0 <= j < ap_req_body_write_1(v).len() ==> value_wf(#[trigger] ap_req_body_write_1(v)[j]),
{
    ap_req_body_rt_2(v);
    Tag::<1, Integer>::lemma_round_trip(v.msg_type);
    assert(ap_req_body_write_1(v) == seq![Tag::<1, Integer>::spec_to_value(v.msg_type)] + ap_req_body_write_2(v));
    assert(ap_req_body_write_1(v)[0] == Tag::<1, Integer>::spec_to_value(v.msg_type));
    assert(has_ctx(ap_req_body_write_1(v)[0], 1));
    lemma_cons_skip(Tag::<1, Integer>::spec_to_value(v.msg_type), ap_req_body_write_2(v));
    assert(ap_req_body_read_1(ap_req_body_write_1(v), v.pvno) == ap_req_body_read_2(ap_req_body_write_2(v), v.pvno, v.msg_type));
    assert forall|j: int| 0 <= j < ap_req_body_write_1(v).len() implies value_wf(#[trigger] ap_req_body_write_1(v)[j]) by {
        if j >= 1 {
            assert(ap_req_body_write_1(v)[j] == ap_req_body_write_2(v)[j - 1]);
        }
    }
}

/// Reading the children written from field 0 on yields the view back.
proof fn ap_req_body_rt_0(v: ApReqBodyView)
    requires
        ApReqBody::view_wf(v),
    ensures
        ap_req_body_read_0(ap_req_body_write_0(v)) == Some(v),
        forall|j: int| 0 <= j < ap_req_body_write_0(v).len() ==> value_wf(#[trigger] ap_req_body_write_0(v)[j]),
{
    ap_req_body_rt_1(v);
    Tag::<0, Integer>::lemma_round_trip(v.pvno);
    assert(ap_req_body_write_0(v) == seq![Tag::<0, Integer>::spec_to_value(v.pvno)] + ap_req_body_write_1(v));
    assert(ap_req_body_write_0(v)[0] == Tag::<0, Integer>::spec_to_value(v.pvno));
    assert(has_ctx(ap_req_body_write_0(v)[0], 0));
    lemma_cons_skip(Tag::<0, Integer>::spec_to_value(v.pvno), ap_req_body_write_1(v));
    assert(ap_req_body_read_0(ap_req_body_write_0(v)) == ap_req_body_read_1(ap_req_body_write_1(v), v.pvno));
    assert forall|j: int| 0 <= j < ap_req_body_write_0(v).len() implies value_wf(#[trigger] ap_req_body_write_0(v)[j]) by {
        if j >= 1 {
            assert(ap_req_body_write_0(v)[j] == ap_req_body_write_1(v)[j - 1]);
        }
    }
}

/// The AP option flags, packed as a bit string.
pub type APOptions = BitString;

/// An AP-REQ: `[APPLICATION 14]` around its body.
pub type ApReq = Application<14, ApReqBody>;

impl ApReq {
    /// Build an AP-REQ around a ticket and an encrypted authenticator,
    /// with protocol version 5 and empty AP options.
    pub fn new(ticket: Ticket, authenticator: EncryptedData) -> (r: Self)
        ensures
            r.deep_view() == (ApReqBodyView {
                pvno: 5,
                msg_type: MessageType::KrbApReq.spec_value(),
                ap_options: BitStringView { unused: 0, data: Seq::<u8>::empty() },
                ticket: ticket.deep_view(),
                authenticator: authenticator.deep_view(),
            }),
    {
        Application {
            inner: ApReqBody {
                pvno: Tag::new(5),
                msg_type: Tag::new(MessageType::KrbApReq.value()),
                ap_options: Tag::new(APOptions::new()),
                ticket: Tag::new(ticket),
                authenticator: Tag::new(authenticator),
            },
        }
    }
}

} // verus!
