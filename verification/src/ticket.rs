//! Tickets: the public `Ticket` shell, its encrypted `EncTicketPart`, and
//! the authorization-data element types carried inside it.

use vstd::prelude::*;

verus! {

use crate::asn1::{
    Asn1Data, lemma_concat_nil, lemma_cons_skip, lemma_nil_concat, lemma_skip_skip, lemma_snoc_concat, BitStringView, GeneralString, Integer, OctetString, SequenceOf, SInteger, Tag,
    has_ctx, is_ctx,
};
use crate::base::{KerberosTime, Realm};
use crate::der::{AsnValue, Asn1Value, GeneralizedTime, value_wf};
use crate::error::{KerlabError, KerlabErrorKind};

use crate::asn1::Application;
use crate::base::{
    AuthorizationData, AuthorizationDataElementView, HostAddresses, HostAddressView,
    PrincipalName, PrincipalNameView, TicketFlags,
};
use crate::encryption::{EncryptedData, EncryptedDataView, EncryptionKey, EncryptionKeyView};

/// The ticket body (`tkt-vno[0] INTEGER, realm[1] Realm, sname[2] PrincipalName, enc-part[3] EncryptedData`).
#[derive(Debug, Clone, PartialEq, Default)]
pub struct TicketBody {
    pub tkt_vno: Tag<0, Integer>,
    pub realm: Tag<1, Realm>,
    pub sname: Tag<2, PrincipalName>,
    pub enc_part: Tag<3, EncryptedData>,
}

/// The deep view of [`TicketBody`].
#[verifier::ext_equal]
pub struct TicketBodyView {
    pub tkt_vno: u32,
    pub realm: Seq<u8>,
    pub sname: PrincipalNameView,
    pub enc_part: EncryptedDataView,
}

impl DeepView for TicketBody {
    type V = TicketBodyView;

    open spec fn deep_view(&self) -> TicketBodyView {
        TicketBodyView {
            tkt_vno: self.tkt_vno.deep_view(),
            realm: self.realm.deep_view(),
            sname: self.sname.deep_view(),
            enc_part: self.enc_part.deep_view(),
        }
    }
}

/// The children a [`TicketBody`] writes from its field 0 on.
pub open spec fn ticket_body_write_0(v: TicketBodyView) -> Seq<AsnValue> {
    seq![Tag::<0, Integer>::spec_to_value(v.tkt_vno)] + ticket_body_write_1(v)
}

/// The children a [`TicketBody`] writes from its field 1 on.
pub open spec fn ticket_body_write_1(v: TicketBodyView) -> Seq<AsnValue> {
    seq![Tag::<1, Realm>::spec_to_value(v.realm)] + ticket_body_write_2(v)
}

/// The children a [`TicketBody`] writes from its field 2 on.
pub open spec fn ticket_body_write_2(v: TicketBodyView) -> Seq<AsnValue> {
    seq![Tag::<2, PrincipalName>::spec_to_value(v.sname)] + ticket_body_write_3(v)
}

/// The children a [`TicketBody`] writes from its field 3 on.
pub open spec fn ticket_body_write_3(v: TicketBodyView) -> Seq<AsnValue> {
    seq![Tag::<3, EncryptedData>::spec_to_value(v.enc_part)] + ticket_body_write_4(v)
}

/// The children a [`TicketBody`] writes past its last field: none.
pub open spec fn ticket_body_write_4(v: TicketBodyView) -> Seq<AsnValue> {
    Seq::empty()
}

/// Read the fields of a [`TicketBody`] from field 0 on.
pub open spec fn ticket_body_read_0(cs: Seq<AsnValue>) -> Option<TicketBodyView> {
    if cs.len() > 0 {
        match Tag::<0, Integer>::spec_from_value(cs[0]) {
            Some(f) => ticket_body_read_1(cs.skip(1), f),
            None => None,
        }
    } else {
        None
    }
}

/// Read the fields of a [`TicketBody`] from field 1 on.
pub open spec fn ticket_body_read_1(cs: Seq<AsnValue>, f_tkt_vno: u32) -> Option<TicketBodyView> {
    if cs.len() > 0 {
        match Tag::<1, Realm>::spec_from_value(cs[0]) {
            Some(f) => ticket_body_read_2(cs.skip(1), f_tkt_vno, f),
            None => None,
        }
    } else {
        None
    }
}

/// Read the fields of a [`TicketBody`] from field 2 on.
pub open spec fn ticket_body_read_2(cs: Seq<AsnValue>, f_tkt_vno: u32, f_realm: Seq<u8>) -> Option<TicketBodyView> {
    if cs.len() > 0 {
        match Tag::<2, PrincipalName>::spec_from_value(cs[0]) {
            Some(f) => ticket_body_read_3(cs.skip(1), f_tkt_vno, f_realm, f),
            None => None,
        }
    } else {
        None
    }
}

/// Read the fields of a [`TicketBody`] from field 3 on.
pub open spec fn ticket_body_read_3(cs: Seq<AsnValue>, f_tkt_vno: u32, f_realm: Seq<u8>, f_sname: PrincipalNameView) -> Option<TicketBodyView> {
    if cs.len() > 0 {
        match Tag::<3, EncryptedData>::spec_from_value(cs[0]) {
            Some(f) => ticket_body_read_4(cs.skip(1), f_tkt_vno, f_realm, f_sname, f),
            None => None,
        }
    } else {
        None
    }
}

/// Past the last field of a [`TicketBody`]: the children must be spent.
pub open spec fn ticket_body_read_4(cs: Seq<AsnValue>, f_tkt_vno: u32, f_realm: Seq<u8>, f_sname: PrincipalNameView, f_enc_part: EncryptedDataView) -> Option<TicketBodyView> {
    if cs.len() == 0 {
        Some(TicketBodyView {
            tkt_vno: f_tkt_vno,
            realm: f_realm,
            sname: f_sname,
            enc_part: f_enc_part,
        })
    } else {
        None
    }
}

impl Asn1Data for TicketBody {
    open spec fn view_wf(v: TicketBodyView) -> bool {
        Tag::<0, Integer>::view_wf(v.tkt_vno)
            && Tag::<1, Realm>::view_wf(v.realm)
            && Tag::<2, PrincipalName>::view_wf(v.sname)
            && Tag::<3, EncryptedData>::view_wf(v.enc_part)
    }

    open spec fn spec_to_value(v: TicketBodyView) -> AsnValue {
        AsnValue::Sequence(ticket_body_write_0(v))
    }

    open spec fn spec_from_value(a: AsnValue) -> Option<TicketBodyView> {
        match a {
            AsnValue::Sequence(cs) => ticket_body_read_0(cs),
            _ => None,
        }
    }

    fn to_value(&self) -> (r: Asn1Value) {
        let ghost v = self.deep_view();
        let mut children: Vec<Asn1Value> = Vec::new();
        let ghost mut gc: Seq<AsnValue> = Seq::empty();
        proof {
            assert(crate::der::view_list(children@) =~= gc);
            lemma_nil_concat(ticket_body_write_0(v));
            assert(ticket_body_write_0(v) == gc + ticket_body_write_0(v));
        }
        let ghost ch_prev0 = children@;
        let ghost gc_prev0 = gc;
        children.push(self.tkt_vno.to_value());
        proof {
            assert(children@.drop_last() =~= ch_prev0);
            gc = gc.push(Tag::<0, Integer>::spec_to_value(self.tkt_vno.deep_view()));
            assert(crate::der::view_list(children@) == gc);
            assert(ticket_body_write_0(v) == seq![Tag::<0, Integer>::spec_to_value(self.tkt_vno.deep_view())] + ticket_body_write_1(v));
            lemma_snoc_concat(gc_prev0, Tag::<0, Integer>::spec_to_value(self.tkt_vno.deep_view()), ticket_body_write_1(v));
            assert(ticket_body_write_0(v) == gc + ticket_body_write_1(v));
        }
        let ghost ch_prev1 = children@;
        let ghost gc_prev1 = gc;
        children.push(self.realm.to_value());
        proof {
            assert(children@.drop_last() =~= ch_prev1);
            gc = gc.push(Tag::<1, Realm>::spec_to_value(self.realm.deep_view()));
            assert(crate::der::view_list(children@) == gc);
            assert(ticket_body_write_1(v) == seq![Tag::<1, Realm>::spec_to_value(self.realm.deep_view())] + ticket_body_write_2(v));
            lemma_snoc_concat(gc_prev1, Tag::<1, Realm>::spec_to_value(self.realm.deep_view()), ticket_body_write_2(v));
            assert(ticket_body_write_0(v) == gc + ticket_body_write_2(v));
        }
        let ghost ch_prev2 = children@;
        let ghost gc_prev2 = gc;
        children.push(self.sname.to_value());
        proof {
            assert(children@.drop_last() =~= ch_prev2);
            gc = gc.push(Tag::<2, PrincipalName>::spec_to_value(self.sname.deep_view()));
            assert(crate::der::view_list(children@) == gc);
            assert(ticket_body_write_2(v) == seq![Tag::<2, PrincipalName>::spec_to_value(self.sname.deep_view())] + ticket_body_write_3(v));
            lemma_snoc_concat(gc_prev2, Tag::<2, PrincipalName>::spec_to_value(self.sname.deep_view()), ticket_body_write_3(v));
            assert(ticket_body_write_0(v) == gc + ticket_body_write_3(v));
        }
        let ghost ch_prev3 = children@;
        let ghost gc_prev3 = gc;
        children.push(self.enc_part.to_value());
        proof {
            assert(children@.drop_last() =~= ch_prev3);
            gc = gc.push(Tag::<3, EncryptedData>::spec_to_value(self.enc_part.deep_view()));
            assert(crate::der::view_list(children@) == gc);
            assert(ticket_body_write_3(v) == seq![Tag::<3, EncryptedData>::spec_to_value(self.enc_part.deep_view())] + ticket_body_write_4(v));
            lemma_snoc_concat(gc_prev3, Tag::<3, EncryptedData>::spec_to_value(self.enc_part.deep_view()), ticket_body_write_4(v));
            assert(ticket_body_write_0(v) == gc + ticket_body_write_4(v));
        }
        proof {
            assert(ticket_body_write_4(v) == Seq::<AsnValue>::empty());
            lemma_concat_nil(gc);
            assert(AsnValue::Sequence(gc) == Self::spec_to_value(v));
        }
        Asn1Value::Sequence(children)
    }

    fn from_value(a: &Asn1Value) -> (r: Result<Self, KerlabError>) {
        match a {
            Asn1Value::Sequence(cs) => {
                proof {
                    crate::der::lemma_view_list(cs@);
                }
                let ghost vl = crate::der::view_list(cs@);
                proof {
                    assert(vl.skip(0) =~= vl);
                    assert(Self::spec_from_value(a@) == ticket_body_read_0(vl.skip(0)));
                }
                let n = cs.len();
                let mut i: usize = 0;
                if i >= n {
                    proof {
                        assert(vl.skip(i as int).len() == 0);
                    }
                    return Err(KerlabError::new(KerlabErrorKind::Parsing, "missing field"));
                }
                proof {
                    assert(vl.skip(i as int)[0] == vl[i as int]);
                    assert(vl[i as int] == cs@[i as int]@);
                }
                let f_tkt_vno = match Tag::<0, Integer>::from_value(&cs[i]) {
                    Ok(x) => x,
                    Err(e) => {
                        return Err(e);
                    },
                };
                proof {
                    lemma_skip_skip(vl, i as int);
                }
                i += 1;
                proof {
                    assert(Self::spec_from_value(a@) == ticket_body_read_1(vl.skip(i as int), f_tkt_vno.deep_view()));
                }
                if i >= n {
                    proof {
                        assert(vl.skip(i as int).len() == 0);
                    }
                    return Err(KerlabError::new(KerlabErrorKind::Parsing, "missing field"));
                }
                proof {
                    assert(vl.skip(i as int)[0] == vl[i as int]);
                    assert(vl[i as int] == cs@[i as int]@);
                }
                let f_realm = match Tag::<1, Realm>::from_value(&cs[i]) {
                    Ok(x) => x,
                    Err(e) => {
                        return Err(e);
                    },
                };
                proof {
                    lemma_skip_skip(vl, i as int);
                }
                i += 1;
                proof {
                    assert(Self::spec_from_value(a@) == ticket_body_read_2(vl.skip(i as int), f_tkt_vno.deep_view(), f_realm.deep_view()));
                }
                if i >= n {
                    proof {
                        assert(vl.skip(i as int).len() == 0);
                    }
                    return Err(KerlabError::new(KerlabErrorKind::Parsing, "missing field"));
                }
                proof {
                    assert(vl.skip(i as int)[0] == vl[i as int]);
                    assert(vl[i as int] == cs@[i as int]@);
                }
                let f_sname = match Tag::<2, PrincipalName>::from_value(&cs[i]) {
                    Ok(x) => x,
                    Err(e) => {
                        return Err(e);
                    },
                };
                proof {
                    lemma_skip_skip(vl, i as int);
                }
                i += 1;
                proof {
                    assert(Self::spec_from_value(a@) == ticket_body_read_3(vl.skip(i as int), f_tkt_vno.deep_view(), f_realm.deep_view(), f_sname.deep_view()));
                }
                if i >= n {
                    proof {
                        assert(vl.skip(i as int).len() == 0);
                    }
                    return Err(KerlabError::new(KerlabErrorKind::Parsing, "missing field"));
                }
                proof {
                    assert(vl.skip(i as int)[0] == vl[i as int]);
                    assert(vl[i as int] == cs@[i as int]@);
                }
                let f_enc_part = match Tag::<3, EncryptedData>::from_value(&cs[i]) {
                    Ok(x) => x,
                    Err(e) => {
                        return Err(e);
                    },
                };
                proof {
                    lemma_skip_skip(vl, i as int);
                }
                i += 1;
                proof {
                    assert(Self::spec_from_value(a@) == ticket_body_read_4(vl.skip(i as int), f_tkt_vno.deep_view(), f_realm.deep_view(), f_sname.deep_view(), f_enc_part.deep_view()));
                }
                if i != n {
                    return Err(KerlabError::new(KerlabErrorKind::Parsing, "unexpected extra field"));
                }
                proof {
                    assert(vl.skip(i as int).len() == 0);
                }
                Ok(TicketBody {
                    tkt_vno: f_tkt_vno,
                    realm: f_realm,
                    sname: f_sname,
                    enc_part: f_enc_part,
                })
            },
            _ => Err(KerlabError::new(KerlabErrorKind::Parsing, "expected a sequence")),
        }
    }

    proof fn lemma_round_trip(v: TicketBodyView) {
        ticket_body_rt_0(v);
        assert(Self::spec_from_value(Self::spec_to_value(v)) == Some(v));
    }
}

/// Reading no children past the last field yields the view back.
proof fn ticket_body_rt_4(v: TicketBodyView)
    requires
        TicketBody::view_wf(v),
    ensures
        ticket_body_read_4(ticket_body_write_4(v), v.tkt_vno, v.realm, v.sname, v.enc_part) == Some(v),
        forall|j: int| 0 <= j < ticket_body_write_4(v).len() ==> value_wf(#[trigger] ticket_body_write_4(v)[j]),
{
    assert(ticket_body_write_4(v).len() == 0);
    assert((TicketBodyView { tkt_vno: v.tkt_vno, realm: v.realm, sname: v.sname, enc_part: v.enc_part }) =~= v);
}

/// Reading the children written from field 3 on yields the view back.
proof fn ticket_body_rt_3(v: TicketBodyView)
    requires
        TicketBody::view_wf(v),
    ensures
        ticket_body_read_3(ticket_body_write_3(v), v.tkt_vno, v.realm, v.sname) == Some(v),
        forall|j: int| 0 <= j < ticket_body_write_3(v).len() ==> value_wf(#[trigger] ticket_body_write_3(v)[j]),
{
    ticket_body_rt_4(v);
    Tag::<3, EncryptedData>::lemma_round_trip(v.enc_part);
    assert(ticket_body_write_3(v) == seq![Tag::<3, EncryptedData>::spec_to_value(v.enc_part)] + ticket_body_write_4(v));
    assert(ticket_body_write_3(v)[0] == Tag::<3, EncryptedData>::spec_to_value(v.enc_part));
    assert(has_ctx(ticket_body_write_3(v)[0], 3));
    lemma_cons_skip(Tag::<3, EncryptedData>::spec_to_value(v.enc_part), ticket_body_write_4(v));
    assert(ticket_body_read_3(ticket_body_write_3(v), v.tkt_vno, v.realm, v.sname) == ticket_body_read_4(ticket_body_write_4(v), v.tkt_vno, v.realm, v.sname, v.enc_part));
    assert forall|j: int| 0 <= j < ticket_body_write_3(v).len() implies value_wf(#[trigger] ticket_body_write_3(v)[j]) by {
        if j >= 1 {
            assert(ticket_body_write_3(v)[j] == ticket_body_write_4(v)[j - 1]);
        }
    }
}

/// Reading the children written from field 2 on yields the view back.
proof fn ticket_body_rt_2(v: TicketBodyView)
    requires
        TicketBody::view_wf(v),
    ensures
        ticket_body_read_2(ticket_body_write_2(v), v.tkt_vno, v.realm) == Some(v),
        forall|j: int| 0 <= j < ticket_body_write_2(v).len() ==> value_wf(#[trigger] ticket_body_write_2(v)[j]),
{
    ticket_body_rt_3(v);
    Tag::<2, PrincipalName>::lemma_round_trip(v.sname);
    assert(ticket_body_write_2(v) == seq![Tag::<2, PrincipalName>::spec_to_value(v.sname)] + ticket_body_write_3(v));
    assert(ticket_body_write_2(v)[0] == Tag::<2, PrincipalName>::spec_to_value(v.sname));
    assert(has_ctx(ticket_body_write_2(v)[0], 2));
    lemma_cons_skip(Tag::<2, PrincipalName>::spec_to_value(v.sname), ticket_body_write_3(v));
    assert(ticket_body_read_2(ticket_body_write_2(v), v.tkt_vno, v.realm) == ticket_body_read_3(ticket_body_write_3(v), v.tkt_vno, v.realm, v.sname));
    assert forall|j: int| 0 <= j < ticket_body_write_2(v).len() implies value_wf(#[trigger] ticket_body_write_2(v)[j]) by {
        if j >= 1 {
            assert(ticket_body_write_2(v)[j] == ticket_body_write_3(v)[j - 1]);
        }
    }
}

/// Reading the children written from field 1 on yields the view back.
proof fn ticket_body_rt_1(v: TicketBodyView)
    requires
        TicketBody::view_wf(v),
    ensures
        ticket_body_read_1(ticket_body_write_1(v), v.tkt_vno) == Some(v),
        forall|j: int| 0 <= j < ticket_body_write_1(v).len() ==> value_wf(#[trigger] ticket_body_write_1(v)[j]),
{
    ticket_body_rt_2(v);
    Tag::<1, Realm>::lemma_round_trip(v.realm);
    assert(ticket_body_write_1(v) == seq![Tag::<1, Realm>::spec_to_value(v.realm)] + ticket_body_write_2(v));
    assert(ticket_body_write_1(v)[0] == Tag::<1, Realm>::spec_to_value(v.realm));
    assert(has_ctx(ticket_body_write_1(v)[0], 1));
    lemma_cons_skip(Tag::<1, Realm>::spec_to_value(v.realm), ticket_body_write_2(v));
    assert(ticket_body_read_1(ticket_body_write_1(v), v.tkt_vno) == ticket_body_read_2(ticket_body_write_2(v), v.tkt_vno, v.realm));
    assert forall|j: int| 0 <= j < ticket_body_write_1(v).len() implies value_wf(#[trigger] ticket_body_write_1(v)[j]) by {
        if j >= 1 {
            assert(ticket_body_write_1(v)[j] == ticket_body_write_2(v)[j - 1]);
        }
    }
}

/// Reading the children written from field 0 on yields the view back.
proof fn ticket_body_rt_0(v: TicketBodyView)
    requires
        TicketBody::view_wf(v),
    ensures
        ticket_body_read_0(ticket_body_write_0(v)) == Some(v),
        forall|j: int| 0 <= j < ticket_body_write_0(v).len() ==> value_wf(#[trigger] ticket_body_write_0(v)[j]),
{
    ticket_body_rt_1(v);
    Tag::<0, Integer>::lemma_round_trip(v.tkt_vno);
    assert(ticket_body_write_0(v) == seq![Tag::<0, Integer>::spec_to_value(v.tkt_vno)] + ticket_body_write_1(v));
    assert(ticket_body_write_0(v)[0] == Tag::<0, Integer>::spec_to_value(v.tkt_vno));
    assert(has_ctx(ticket_body_write_0(v)[0], 0));
    lemma_cons_skip(Tag::<0, Integer>::spec_to_value(v.tkt_vno), ticket_body_write_1(v));
    assert(ticket_body_read_0(ticket_body_write_0(v)) == ticket_body_read_1(ticket_body_write_1(v), v.tkt_vno));
    assert forall|j: int| 0 <= j < ticket_body_write_0(v).len() implies value_wf(#[trigger] ticket_body_write_0(v)[j]) by {
        if j >= 1 {
            assert(ticket_body_write_0(v)[j] == ticket_body_write_1(v)[j - 1]);
        }
    }
}

/// The realms a ticket transited (`tr-type[0] INTEGER, contents[1] OCTET STRING`).
#[derive(Debug, Clone, PartialEq, Default)]
pub struct TransitedEncoding {
    pub tr_type: Tag<0, Integer>,
    pub contents: Tag<1, OctetString>,
}

/// The deep view of [`TransitedEncoding`].
#[verifier::ext_equal]
pub struct TransitedEncodingView {
    pub tr_type: u32,
    pub contents: Seq<u8>,
}

impl DeepView for TransitedEncoding {
    type V = TransitedEncodingView;

    open spec fn deep_view(&self) -> TransitedEncodingView {
        TransitedEncodingView {
            tr_type: self.tr_type.deep_view(),
            contents: self.contents.deep_view(),
        }
    }
}

/// The children a [`TransitedEncoding`] writes from its field 0 on.
pub open spec fn transited_encoding_write_0(v: TransitedEncodingView) -> Seq<AsnValue> {
    seq![Tag::<0, Integer>::spec_to_value(v.tr_type)] + transited_encoding_write_1(v)
}

/// The children a [`TransitedEncoding`] writes from its field 1 on.
pub open spec fn transited_encoding_write_1(v: TransitedEncodingView) -> Seq<AsnValue> {
    seq![Tag::<1, OctetString>::spec_to_value(v.contents)] + transited_encoding_write_2(v)
}

/// The children a [`TransitedEncoding`] writes past its last field: none.
pub open spec fn transited_encoding_write_2(v: TransitedEncodingView) -> Seq<AsnValue> {
    Seq::empty()
}

/// Read the fields of a [`TransitedEncoding`] from field 0 on.
pub open spec fn transited_encoding_read_0(cs: Seq<AsnValue>) -> Option<TransitedEncodingView> {
    if cs.len() > 0 {
        match Tag::<0, Integer>::spec_from_value(cs[0]) {
            Some(f) => transited_encoding_read_1(cs.skip(1), f),
            None => None,
        }
    } else {
        None
    }
}

/// Read the fields of a [`TransitedEncoding`] from field 1 on.
pub open spec fn transited_encoding_read_1(cs: Seq<AsnValue>, f_tr_type: u32) -> Option<TransitedEncodingView> {
    if cs.len() > 0 {
        match Tag::<1, OctetString>::spec_from_value(cs[0]) {
            Some(f) => transited_encoding_read_2(cs.skip(1), f_tr_type, f),
            None => None,
        }
    } else {
        None
    }
}

/// Past the last field of a [`TransitedEncoding`]: the children must be spent.
pub open spec fn transited_encoding_read_2(cs: Seq<AsnValue>, f_tr_type: u32, f_contents: Seq<u8>) -> Option<TransitedEncodingView> {
    if cs.len() == 0 {
        Some(TransitedEncodingView {
            tr_type: f_tr_type,
            contents: f_contents,
        })
    } else {
        None
    }
}

impl Asn1Data for TransitedEncoding {
    open spec fn view_wf(v: TransitedEncodingView) -> bool {
        Tag::<0, Integer>::view_wf(v.tr_type)
            && Tag::<1, OctetString>::view_wf(v.contents)
    }

    open spec fn spec_to_value(v: TransitedEncodingView) -> AsnValue {
        AsnValue::Sequence(transited_encoding_write_0(v))
    }

    open spec fn spec_from_value(a: AsnValue) -> Option<TransitedEncodingView> {
        match a {
            AsnValue::Sequence(cs) => transited_encoding_read_0(cs),
            _ => None,
        }
    }

    fn to_value(&self) -> (r: Asn1Value) {
        let ghost v = self.deep_view();
        let mut children: Vec<Asn1Value> = Vec::new();
        let ghost mut gc: Seq<AsnValue> = Seq::empty();
        proof {
            assert(crate::der::view_list(children@) =~= gc);
            lemma_nil_concat(transited_encoding_write_0(v));
            assert(transited_encoding_write_0(v) == gc + transited_encoding_write_0(v));
        }
        let ghost ch_prev0 = children@;
        let ghost gc_prev0 = gc;
        children.push(self.tr_type.to_value());
        proof {
            assert(children@.drop_last() =~= ch_prev0);
            gc = gc.push(Tag::<0, Integer>::spec_to_value(self.tr_type.deep_view()));
            assert(crate::der::view_list(children@) == gc);
            assert(transited_encoding_write_0(v) == seq![Tag::<0, Integer>::spec_to_value(self.tr_type.deep_view())] + transited_encoding_write_1(v));
            lemma_snoc_concat(gc_prev0, Tag::<0, Integer>::spec_to_value(self.tr_type.deep_view()), transited_encoding_write_1(v));
            assert(transited_encoding_write_0(v) == gc + transited_encoding_write_1(v));
        }
        let ghost ch_prev1 = children@;
        let ghost gc_prev1 = gc;
        children.push(self.contents.to_value());
        proof {
            assert(children@.drop_last() =~= ch_prev1);
            gc = gc.push(Tag::<1, OctetString>::spec_to_value(self.contents.deep_view()));
            assert(crate::der::view_list(children@) == gc);
            assert(transited_encoding_write_1(v) == seq![Tag::<1, OctetString>::spec_to_value(self.contents.deep_view())] + transited_encoding_write_2(v));
            lemma_snoc_concat(gc_prev1, Tag::<1, OctetString>::spec_to_value(self.contents.deep_view()), transited_encoding_write_2(v));
            assert(transited_encoding_write_0(v) == gc + transited_encoding_write_2(v));
        }
        proof {
            assert(transited_encoding_write_2(v) == Seq::<AsnValue>::empty());
            lemma_concat_nil(gc);
            assert(AsnValue::Sequence(gc) == Self::spec_to_value(v));
        }
        Asn1Value::Sequence(children)
    }

    fn from_value(a: &Asn1Value) -> (r: Result<Self, KerlabError>) {
        match a {
            Asn1Value::Sequence(cs) => {
                proof {
                    crate::der::lemma_view_list(cs@);
                }
                let ghost vl = crate::der::view_list(cs@);
                proof {
                    assert(vl.skip(0) =~= vl);
                    assert(Self::spec_from_value(a@) == transited_encoding_read_0(vl.skip(0)));
                }
                let n = cs.len();
                let mut i: usize = 0;
                if i >= n {
                    proof {
                        assert(vl.skip(i as int).len() == 0);
                    }
                    return Err(KerlabError::new(KerlabErrorKind::Parsing, "missing field"));
                }
                proof {
                    assert(vl.skip(i as int)[0] == vl[i as int]);
                    assert(vl[i as int] == cs@[i as int]@);
                }
                let f_tr_type = match Tag::<0, Integer>::from_value(&cs[i]) {
                    Ok(x) => x,
                    Err(e) => {
                        return Err(e);
                    },
                };
                proof {
                    lemma_skip_skip(vl, i as int);
                }
                i += 1;
                proof {
                    assert(Self::spec_from_value(a@) == transited_encoding_read_1(vl.skip(i as int), f_tr_type.deep_view()));
                }
                if i >= n {
                    proof {
                        assert(vl.skip(i as int).len() == 0);
                    }
                    return Err(KerlabError::new(KerlabErrorKind::Parsing, "missing field"));
                }
                proof {
                    assert(vl.skip(i as int)[0] == vl[i as int]);
                    assert(vl[i as int] == cs@[i as int]@);
                }
                let f_contents = match Tag::<1, OctetString>::from_value(&cs[i]) {
                    Ok(x) => x,
                    Err(e) => {
                        return Err(e);
                    },
                };
                proof {
                    lemma_skip_skip(vl, i as int);
                }
                i += 1;
                proof {
                    assert(Self::spec_from_value(a@) == transited_encoding_read_2(vl.skip(i as int), f_tr_type.deep_view(), f_contents.deep_view()));
                }
                if i != n {
                    return Err(KerlabError::new(KerlabErrorKind::Parsing, "unexpected extra field"));
                }
                proof {
                    assert(vl.skip(i as int).len() == 0);
                }
                Ok(TransitedEncoding {
                    tr_type: f_tr_type,
                    contents: f_contents,
                })
            },
            _ => Err(KerlabError::new(KerlabErrorKind::Parsing, "expected a sequence")),
        }
    }

    proof fn lemma_round_trip(v: TransitedEncodingView) {
        transited_encoding_rt_0(v);
        assert(Self::spec_from_value(Self::spec_to_value(v)) == Some(v));
    }
}

/// Reading no children past the last field yields the view back.
proof fn transited_encoding_rt_2(v: TransitedEncodingView)
    requires
        TransitedEncoding::view_wf(v),
    ensures
        transited_encoding_read_2(transited_encoding_write_2(v), v.tr_type, v.contents) == Some(v),
        forall|j: int| 0 <= j < transited_encoding_write_2(v).len() ==> value_wf(#[trigger] transited_encoding_write_2(v)[j]),
{
    assert(transited_encoding_write_2(v).len() == 0);
    assert((TransitedEncodingView { tr_type: v.tr_type, contents: v.contents }) =~= v);
}

/// Reading the children written from field 1 on yields the view back.
proof fn transited_encoding_rt_1(v: TransitedEncodingView)
    requires
        TransitedEncoding::view_wf(v),
    ensures
        transited_encoding_read_1(transited_encoding_write_1(v), v.tr_type) == Some(v),
        forall|j: int| 0 <= j < transited_encoding_write_1(v).len() ==> value_wf(#[trigger] transited_encoding_write_1(v)[j]),
{
    transited_encoding_rt_2(v);
    Tag::<1, OctetString>::lemma_round_trip(v.contents);
    assert(transited_encoding_write_1(v) == seq![Tag::<1, OctetString>::spec_to_value(v.contents)] + transited_encoding_write_2(v));
    assert(transited_encoding_write_1(v)[0] == Tag::<1, OctetString>::spec_to_value(v.contents));
    assert(has_ctx(transited_encoding_write_1(v)[0], 1));
    lemma_cons_skip(Tag::<1, OctetString>::spec_to_value(v.contents), transited_encoding_write_2(v));
    assert(transited_encoding_read_1(transited_encoding_write_1(v), v.tr_type) == transited_encoding_read_2(transited_encoding_write_2(v), v.tr_type, v.contents));
    assert forall|j: int| 0 <= j < transited_encoding_write_1(v).len() implies value_wf(#[trigger] transited_encoding_write_1(v)[j]) by {
        if j >= 1 {
            assert(transited_encoding_write_1(v)[j] == transited_encoding_write_2(v)[j - 1]);
        }
    }
}

/// Reading the children written from field 0 on yields the view back.
proof fn transited_encoding_rt_0(v: TransitedEncodingView)
    requires
        TransitedEncoding::view_wf(v),
    ensures
        transited_encoding_read_0(transited_encoding_write_0(v)) == Some(v),
        forall|j: int| 0 <= j < transited_encoding_write_0(v).len() ==> value_wf(#[trigger] transited_encoding_write_0(v)[j]),
{
    transited_encoding_rt_1(v);
    Tag::<0, Integer>::lemma_round_trip(v.tr_type);
    assert(transited_encoding_write_0(v) == seq![Tag::<0, Integer>::spec_to_value(v.tr_type)] + transited_encoding_write_1(v));
    assert(transited_encoding_write_0(v)[0] == Tag::<0, Integer>::spec_to_value(v.tr_type));
    assert(has_ctx(transited_encoding_write_0(v)[0], 0));
    lemma_cons_skip(Tag::<0, Integer>::spec_to_value(v.tr_type), transited_encoding_write_1(v));
    assert(transited_encoding_read_0(transited_encoding_write_0(v)) == transited_encoding_read_1(transited_encoding_write_1(v), v.tr_type));
    assert forall|j: int| 0 <= j < transited_encoding_write_0(v).len() implies value_wf(#[trigger] transited_encoding_write_0(v)[j]) by {
        if j >= 1 {
            assert(transited_encoding_write_0(v)[j] == transited_encoding_write_1(v)[j - 1]);
        }
    }
}

/// The encrypted part of a ticket (RFC 1510 section 5.3.1).
#[derive(Debug, Clone, PartialEq, Default)]
pub struct EncTicketPartBody {
    pub flags: Tag<0, TicketFlags>,
    pub key: Tag<1, EncryptionKey>,
    pub crealm: Tag<2, Realm>,
    pub cname: Tag<3, PrincipalName>,
    pub transited: Tag<4, TransitedEncoding>,
    pub authtime: Tag<5, KerberosTime>,
    pub starttime: Option<Tag<6, KerberosTime>>,
    pub endtime: Tag<7, KerberosTime>,
    pub renew_till: Option<Tag<8, KerberosTime>>,
    pub caddr: Option<Tag<9, HostAddresses>>,
    pub authorization_data: Option<Tag<10, AuthorizationData>>,
}

/// The deep view of [`EncTicketPartBody`].
#[verifier::ext_equal]
pub struct EncTicketPartBodyView {
    pub flags: BitStringView,
    pub key: EncryptionKeyView,
    pub crealm: Seq<u8>,
    pub cname: PrincipalNameView,
    pub transited: TransitedEncodingView,
    pub authtime: GeneralizedTime,
    pub starttime: Option<GeneralizedTime>,
    pub endtime: GeneralizedTime,
    pub renew_till: Option<GeneralizedTime>,
    pub caddr: Option<Seq<HostAddressView>>,
    pub authorization_data: Option<Seq<AuthorizationDataElementView>>,
}

impl DeepView for EncTicketPartBody {
    type V = EncTicketPartBodyView;

    open spec fn deep_view(&self) -> EncTicketPartBodyView {
        EncTicketPartBodyView {
            flags: self.flags.deep_view(),
            key: self.key.deep_view(),
            crealm: self.crealm.deep_view(),
            cname: self.cname.deep_view(),
            transited: self.transited.deep_view(),
            authtime: self.authtime.deep_view(),
            starttime: self.starttime.deep_view(),
            endtime: self.endtime.deep_view(),
            renew_till: self.renew_till.deep_view(),
            caddr: self.caddr.deep_view(),
            authorization_data: self.authorization_data.deep_view(),
        }
    }
}

/// The children a [`EncTicketPartBody`] writes from its field 0 on.
pub open spec fn enc_ticket_part_body_write_0(v: EncTicketPartBodyView) -> Seq<AsnValue> {
    seq![Tag::<0, TicketFlags>::spec_to_value(v.flags)] + enc_ticket_part_body_write_1(v)
}

/// The children a [`EncTicketPartBody`] writes from its field 1 on.
pub open spec fn enc_ticket_part_body_write_1(v: EncTicketPartBodyView) -> Seq<AsnValue> {
    seq![Tag::<1, EncryptionKey>::spec_to_value(v.key)] + enc_ticket_part_body_write_2(v)
}

/// The children a [`EncTicketPartBody`] writes from its field 2 on.
pub open spec fn enc_ticket_part_body_write_2(v: EncTicketPartBodyView) -> Seq<AsnValue> {
    seq![Tag::<2, Realm>::spec_to_value(v.crealm)] + enc_ticket_part_body_write_3(v)
}

/// The children a [`EncTicketPartBody`] writes from its field 3 on.
pub open spec fn enc_ticket_part_body_write_3(v: EncTicketPartBodyView) -> Seq<AsnValue> {
    seq![Tag::<3, PrincipalName>::spec_to_value(v.cname)] + enc_ticket_part_body_write_4(v)
}

/// The children a [`EncTicketPartBody`] writes from its field 4 on.
pub open spec fn enc_ticket_part_body_write_4(v: EncTicketPartBodyView) -> Seq<AsnValue> {
    seq![Tag::<4, TransitedEncoding>::spec_to_value(v.transited)] + enc_ticket_part_body_write_5(v)
}

/// The children a [`EncTicketPartBody`] writes from its field 5 on.
pub open spec fn enc_ticket_part_body_write_5(v: EncTicketPartBodyView) -> Seq<AsnValue> {
    seq![Tag::<5, KerberosTime>::spec_to_value(v.authtime)] + enc_ticket_part_body_write_6(v)
}

/// The children a [`EncTicketPartBody`] writes from its field 6 on.
pub open spec fn enc_ticket_part_body_write_6(v: EncTicketPartBodyView) -> Seq<AsnValue> {
    match v.starttime {
        Some(x) => seq![Tag::<6, KerberosTime>::spec_to_value(x)] + enc_ticket_part_body_write_7(v),
        None => enc_ticket_part_body_write_7(v),
    }
}

/// The children a [`EncTicketPartBody`] writes from its field 7 on.
pub open spec fn enc_ticket_part_body_write_7(v: EncTicketPartBodyView) -> Seq<AsnValue> {
    seq![Tag::<7, KerberosTime>::spec_to_value(v.endtime)] + enc_ticket_part_body_write_8(v)
}

/// The children a [`EncTicketPartBody`] writes from its field 8 on.
pub open spec fn enc_ticket_part_body_write_8(v: EncTicketPartBodyView) -> Seq<AsnValue> {
    match v.renew_till {
        Some(x) => seq![Tag::<8, KerberosTime>::spec_to_value(x)] + enc_ticket_part_body_write_9(v),
        None => enc_ticket_part_body_write_9(v),
    }
}

/// The children a [`EncTicketPartBody`] writes from its field 9 on.
pub open spec fn enc_ticket_part_body_write_9(v: EncTicketPartBodyView) -> Seq<AsnValue> {
    match v.caddr {
        Some(x) => seq![Tag::<9, HostAddresses>::spec_to_value(x)] + enc_ticket_part_body_write_10(v),
        None => enc_ticket_part_body_write_10(v),
    }
}

/// The children a [`EncTicketPartBody`] writes from its field 10 on.
pub open spec fn enc_ticket_part_body_write_10(v: EncTicketPartBodyView) -> Seq<AsnValue> {
    match v.authorization_data {
        Some(x) => seq![Tag::<10, AuthorizationData>::spec_to_value(x)] + enc_ticket_part_body_write_11(v),
        None => enc_ticket_part_body_write_11(v),
    }
}

/// The children a [`EncTicketPartBody`] writes past its last field: none.
pub open spec fn enc_ticket_part_body_write_11(v: EncTicketPartBodyView) -> Seq<AsnValue> {
    Seq::empty()
}

/// Read the fields of a [`EncTicketPartBody`] from field 0 on.
pub open spec fn enc_ticket_part_body_read_0(cs: Seq<AsnValue>) -> Option<EncTicketPartBodyView> {
    if cs.len() > 0 {
        match Tag::<0, TicketFlags>::spec_from_value(cs[0]) {
            Some(f) => enc_ticket_part_body_read_1(cs.skip(1), f),
            None => None,
        }
    } else {
        None
    }
}

/// Read the fields of a [`EncTicketPartBody`] from field 1 on.
pub open spec fn enc_ticket_part_body_read_1(cs: Seq<AsnValue>, f_flags: BitStringView) -> Option<EncTicketPartBodyView> {
    if cs.len() > 0 {
        match Tag::<1, EncryptionKey>::spec_from_value(cs[0]) {
            Some(f) => enc_ticket_part_body_read_2(cs.skip(1), f_flags, f),
            None => None,
        }
    } else {
        None
    }
}

/// Read the fields of a [`EncTicketPartBody`] from field 2 on.
pub open spec fn enc_ticket_part_body_read_2(cs: Seq<AsnValue>, f_flags: BitStringView, f_key: EncryptionKeyView) -> Option<EncTicketPartBodyView> {
    if cs.len() > 0 {
        match Tag::<2, Realm>::spec_from_value(cs[0]) {
            Some(f) => enc_ticket_part_body_read_3(cs.skip(1), f_flags, f_key, f),
            None => None,
        }
    } else {
        None
    }
}

/// Read the fields of a [`EncTicketPartBody`] from field 3 on.
pub open spec fn enc_ticket_part_body_read_3(cs: Seq<AsnValue>, f_flags: BitStringView, f_key: EncryptionKeyView, f_crealm: Seq<u8>) -> Option<EncTicketPartBodyView> {
    if cs.len() > 0 {
        match Tag::<3, PrincipalName>::spec_from_value(cs[0]) {
            Some(f) => enc_ticket_part_body_read_4(cs.skip(1), f_flags, f_key, f_crealm, f),
            None => None,
        }
    } else {
        None
    }
}

/// Read the fields of a [`EncTicketPartBody`] from field 4 on.
pub open spec fn enc_ticket_part_body_read_4(cs: Seq<AsnValue>, f_flags: BitStringView, f_key: EncryptionKeyView, f_crealm: Seq<u8>, f_cname: PrincipalNameView) -> Option<EncTicketPartBodyView> {
    if cs.len() > 0 {
        match Tag::<4, TransitedEncoding>::spec_from_value(cs[0]) {
            Some(f) => enc_ticket_part_body_read_5(cs.skip(1), f_flags, f_key, f_crealm, f_cname, f),
            None => None,
        }
    } else {
        None
    }
}

/// Read the fields of a [`EncTicketPartBody`] from field 5 on.
pub open spec fn enc_ticket_part_body_read_5(cs: Seq<AsnValue>, f_flags: BitStringView, f_key: EncryptionKeyView, f_crealm: Seq<u8>, f_cname: PrincipalNameView, f_transited: TransitedEncodingView) -> Option<EncTicketPartBodyView> {
    if cs.len() > 0 {
        match Tag::<5, KerberosTime>::spec_from_value(cs[0]) {
            Some(f) => enc_ticket_part_body_read_6(cs.skip(1), f_flags, f_key, f_crealm, f_cname, f_transited, f),
            None => None,
        }
    } else {
        None
    }
}

/// Read the fields of a [`EncTicketPartBody`] from field 6 on.
pub open spec fn enc_ticket_part_body_read_6(cs: Seq<AsnValue>, f_flags: BitStringView, f_key: EncryptionKeyView, f_crealm: Seq<u8>, f_cname: PrincipalNameView, f_transited: TransitedEncodingView, f_authtime: GeneralizedTime) -> Option<EncTicketPartBodyView> {
    if cs.len() > 0 && has_ctx(cs[0], 6) {
        match Tag::<6, KerberosTime>::spec_from_value(cs[0]) {
            Some(f) => enc_ticket_part_body_read_7(cs.skip(1), f_flags, f_key, f_crealm, f_cname, f_transited, f_authtime, Some(f)),
            None => None,
        }
    } else {
        enc_ticket_part_body_read_7(cs, f_flags, f_key, f_crealm, f_cname, f_transited, f_authtime, None::<GeneralizedTime>)
    }
}

/// Read the fields of a [`EncTicketPartBody`] from field 7 on.
pub open spec fn enc_ticket_part_body_read_7(cs: Seq<AsnValue>, f_flags: BitStringView, f_key: EncryptionKeyView, f_crealm: Seq<u8>, f_cname: PrincipalNameView, f_transited: TransitedEncodingView, f_authtime: GeneralizedTime, f_starttime: Option<GeneralizedTime>) -> Option<EncTicketPartBodyView> {
    if cs.len() > 0 {
        match Tag::<7, KerberosTime>::spec_from_value(cs[0]) {
            Some(f) => enc_ticket_part_body_read_8(cs.skip(1), f_flags, f_key, f_crealm, f_cname, f_transited, f_authtime, f_starttime, f),
            None => None,
        }
    } else {
        None
    }
}

/// Read the fields of a [`EncTicketPartBody`] from field 8 on.
pub open spec fn enc_ticket_part_body_read_8(cs: Seq<AsnValue>, f_flags: BitStringView, f_key: EncryptionKeyView, f_crealm: Seq<u8>, f_cname: PrincipalNameView, f_transited: TransitedEncodingView, f_authtime: GeneralizedTime, f_starttime: Option<GeneralizedTime>, f_endtime: GeneralizedTime) -> Option<EncTicketPartBodyView> {
    if cs.len() > 0 && has_ctx(cs[0], 8) {
        match Tag::<8, KerberosTime>::spec_from_value(cs[0]) {
            Some(f) => enc_ticket_part_body_read_9(cs.skip(1), f_flags, f_key, f_crealm, f_cname, f_transited, f_authtime, f_starttime, f_endtime, Some(f)),
            None => None,
        }
    } else {
        enc_ticket_part_body_read_9(cs, f_flags, f_key, f_crealm, f_cname, f_transited, f_authtime, f_starttime, f_endtime, None::<GeneralizedTime>)
    }
}

/// Read the fields of a [`EncTicketPartBody`] from field 9 on.
pub open spec fn enc_ticket_part_body_read_9(cs: Seq<AsnValue>, f_flags: BitStringView, f_key: EncryptionKeyView, f_crealm: Seq<u8>, f_cname: PrincipalNameView, f_transited: TransitedEncodingView, f_authtime: GeneralizedTime, f_starttime: Option<GeneralizedTime>, f_endtime: GeneralizedTime, f_renew_till: Option<GeneralizedTime>) -> Option<EncTicketPartBodyView> {
    if cs.len() > 0 && has_ctx(cs[0], 9) {
        match Tag::<9, HostAddresses>::spec_from_value(cs[0]) {
            Some(f) => enc_ticket_part_body_read_10(cs.skip(1), f_flags, f_key, f_crealm, f_cname, f_transited, f_authtime, f_starttime, f_endtime, f_renew_till, Some(f)),
            None => None,
        }
    } else {
        enc_ticket_part_body_read_10(cs, f_flags, f_key, f_crealm, f_cname, f_transited, f_authtime, f_starttime, f_endtime, f_renew_till, None::<Seq<HostAddressView>>)
    }
}

/// Read the fields of a [`EncTicketPartBody`] from field 10 on.
pub open spec fn enc_ticket_part_body_read_10(cs: Seq<AsnValue>, f_flags: BitStringView, f_key: EncryptionKeyView, f_crealm: Seq<u8>, f_cname: PrincipalNameView, f_transited: TransitedEncodingView, f_authtime: GeneralizedTime, f_starttime: Option<GeneralizedTime>, f_endtime: GeneralizedTime, f_renew_till: Option<GeneralizedTime>, f_caddr: Option<Seq<HostAddressView>>) -> Option<EncTicketPartBodyView> {
    if cs.len() > 0 && has_ctx(cs[0], 10) {
        match Tag::<10, AuthorizationData>::spec_from_value(cs[0]) {
            Some(f) => enc_ticket_part_body_read_11(cs.skip(1), f_flags, f_key, f_crealm, f_cname, f_transited, f_authtime, f_starttime, f_endtime, f_renew_till, f_caddr, Some(f)),
            None => None,
        }
    } else {
        enc_ticket_part_body_read_11(cs, f_flags, f_key, f_crealm, f_cname, f_transited, f_authtime, f_starttime, f_endtime, f_renew_till, f_caddr, None::<Seq<AuthorizationDataElementView>>)
    }
}

/// Past the last field of a [`EncTicketPartBody`]: the children must be spent.
pub open spec fn enc_ticket_part_body_read_11(cs: Seq<AsnValue>, f_flags: BitStringView, f_key: EncryptionKeyView, f_crealm: Seq<u8>, f_cname: PrincipalNameView, f_transited: TransitedEncodingView, f_authtime: GeneralizedTime, f_starttime: Option<GeneralizedTime>, f_endtime: GeneralizedTime, f_renew_till: Option<GeneralizedTime>, f_caddr: Option<Seq<HostAddressView>>, f_authorization_data: Option<Seq<AuthorizationDataElementView>>) -> Option<EncTicketPartBodyView> {
    if cs.len() == 0 {
        Some(EncTicketPartBodyView {
            flags: f_flags,
            key: f_key,
            crealm: f_crealm,
            cname: f_cname,
            transited: f_transited,
            authtime: f_authtime,
            starttime: f_starttime,
            endtime: f_endtime,
            renew_till: f_renew_till,
            caddr: f_caddr,
            authorization_data: f_authorization_data,
        })
    } else {
        None
    }
}

impl Asn1Data for EncTicketPartBody {
    open spec fn view_wf(v: EncTicketPartBodyView) -> bool {
        Tag::<0, TicketFlags>::view_wf(v.flags)
            && Tag::<1, EncryptionKey>::view_wf(v.key)
            && Tag::<2, Realm>::view_wf(v.crealm)
            && Tag::<3, PrincipalName>::view_wf(v.cname)
            && Tag::<4, TransitedEncoding>::view_wf(v.transited)
            && Tag::<5, KerberosTime>::view_wf(v.authtime)
            && (match v.starttime {
            Some(x) => Tag::<6, KerberosTime>::view_wf(x),
            None => true,
        })
            && Tag::<7, KerberosTime>::view_wf(v.endtime)
            && (match v.renew_till {
            Some(x) => Tag::<8, KerberosTime>::view_wf(x),
            None => true,
        })
            && (match v.caddr {
            Some(x) => Tag::<9, HostAddresses>::view_wf(x),
            None => true,
        })
            && (match v.authorization_data {
            Some(x) => Tag::<10, AuthorizationData>::view_wf(x),
            None => true,
        })
    }

    open spec fn spec_to_value(v: EncTicketPartBodyView) -> AsnValue {
        AsnValue::Sequence(enc_ticket_part_body_write_0(v))
    }

    open spec fn spec_from_value(a: AsnValue) -> Option<EncTicketPartBodyView> {
        match a {
            AsnValue::Sequence(cs) => enc_ticket_part_body_read_0(cs),
            _ => None,
        }
    }

    #[verifier::rlimit(100)]
    fn to_value(&self) -> (r: Asn1Value) {
        let ghost v = self.deep_view();
        let mut children: Vec<Asn1Value> = Vec::new();
        let ghost mut gc: Seq<AsnValue> = Seq::empty();
        proof {
            assert(crate::der::view_list(children@) =~= gc);
            lemma_nil_concat(enc_ticket_part_body_write_0(v));
            assert(enc_ticket_part_body_write_0(v) == gc + enc_ticket_part_body_write_0(v));
        }
        let ghost ch_prev0 = children@;
        let ghost gc_prev0 = gc;
        children.push(self.flags.to_value());
        proof {
            assert(children@.drop_last() =~= ch_prev0);
            gc = gc.push(Tag::<0, TicketFlags>::spec_to_value(self.flags.deep_view()));
            assert(crate::der::view_list(children@) == gc);
            assert(enc_ticket_part_body_write_0(v) == seq![Tag::<0, TicketFlags>::spec_to_value(self.flags.deep_view())] + enc_ticket_part_body_write_1(v));
            lemma_snoc_concat(gc_prev0, Tag::<0, TicketFlags>::spec_to_value(self.flags.deep_view()), enc_ticket_part_body_write_1(v));
            assert(enc_ticket_part_body_write_0(v) == gc + enc_ticket_part_body_write_1(v));
        }
        let ghost ch_prev1 = children@;
        let ghost gc_prev1 = gc;
        children.push(self.key.to_value());
        proof {
            assert(children@.drop_last() =~= ch_prev1);
            gc = gc.push(Tag::<1, EncryptionKey>::spec_to_value(self.key.deep_view()));
            assert(crate::der::view_list(children@) == gc);
            assert(enc_ticket_part_body_write_1(v) == seq![Tag::<1, EncryptionKey>::spec_to_value(self.key.deep_view())] + enc_ticket_part_body_write_2(v));
            lemma_snoc_concat(gc_prev1, Tag::<1, EncryptionKey>::spec_to_value(self.key.deep_view()), enc_ticket_part_body_write_2(v));
            assert(enc_ticket_part_body_write_0(v) == gc + enc_ticket_part_body_write_2(v));
        }
        let ghost ch_prev2 = children@;
        let ghost gc_prev2 = gc;
        children.push(self.crealm.to_value());
        proof {
            assert(children@.drop_last() =~= ch_prev2);
            gc = gc.push(Tag::<2, Realm>::spec_to_value(self.crealm.deep_view()));
            assert(crate::der::view_list(children@) == gc);
            assert(enc_ticket_part_body_write_2(v) == seq![Tag::<2, Realm>::spec_to_value(self.crealm.deep_view())] + enc_ticket_part_body_write_3(v));
            lemma_snoc_concat(gc_prev2, Tag::<2, Realm>::spec_to_value(self.crealm.deep_view()), enc_ticket_part_body_write_3(v));
            assert(enc_ticket_part_body_write_0(v) == gc + enc_ticket_part_body_write_3(v));
        }
        let ghost ch_prev3 = children@;
        let ghost gc_prev3 = gc;
        children.push(self.cname.to_value());
        proof {
            assert(children@.drop_last() =~= ch_prev3);
            gc = gc.push(Tag::<3, PrincipalName>::spec_to_value(self.cname.deep_view()));
            assert(crate::der::view_list(children@) == gc);
            assert(enc_ticket_part_body_write_3(v) == seq![Tag::<3, PrincipalName>::spec_to_value(self.cname.deep_view())] + enc_ticket_part_body_write_4(v));
            lemma_snoc_concat(gc_prev3, Tag::<3, PrincipalName>::spec_to_value(self.cname.deep_view()), enc_ticket_part_body_write_4(v));
            assert(enc_ticket_part_body_write_0(v) == gc + enc_ticket_part_body_write_4(v));
        }
        let ghost ch_prev4 = children@;
        let ghost gc_prev4 = gc;
        children.push(self.transited.to_value());
        proof {
            assert(children@.drop_last() =~= ch_prev4);
            gc = gc.push(Tag::<4, TransitedEncoding>::spec_to_value(self.transited.deep_view()));
            assert(crate::der::view_list(children@) == gc);
            assert(enc_ticket_part_body_write_4(v) == seq![Tag::<4, TransitedEncoding>::spec_to_value(self.transited.deep_view())] + enc_ticket_part_body_write_5(v));
            lemma_snoc_concat(gc_prev4, Tag::<4, TransitedEncoding>::spec_to_value(self.transited.deep_view()), enc_ticket_part_body_write_5(v));
            assert(enc_ticket_part_body_write_0(v) == gc + enc_ticket_part_body_write_5(v));
        }
        let ghost ch_prev5 = children@;
        let ghost gc_prev5 = gc;
        children.push(self.authtime.to_value());
        proof {
            assert(children@.drop_last() =~= ch_prev5);
            gc = gc.push(Tag::<5, KerberosTime>::spec_to_value(self.authtime.deep_view()));
            assert(crate::der::view_list(children@) == gc);
            assert(enc_ticket_part_body_write_5(v) == seq![Tag::<5, KerberosTime>::spec_to_value(self.authtime.deep_view())] + enc_ticket_part_body_write_6(v));
            lemma_snoc_concat(gc_prev5, Tag::<5, KerberosTime>::spec_to_value(self.authtime.deep_view()), enc_ticket_part_body_write_6(v));
            assert(enc_ticket_part_body_write_0(v) == gc + enc_ticket_part_body_write_6(v));
        }
        match &self.starttime {
            Some(x) => {
                let ghost ch_prev = children@;
                let ghost gc_prev = gc;
                children.push(x.to_value());
                proof {
                    assert(children@.drop_last() =~= ch_prev);
                    gc = gc.push(Tag::<6, KerberosTime>::spec_to_value(x.deep_view()));
                    assert(crate::der::view_list(children@) == gc);
                    assert(enc_ticket_part_body_write_6(v) == seq![Tag::<6, KerberosTime>::spec_to_value(x.deep_view())] + enc_ticket_part_body_write_7(v));
                    lemma_snoc_concat(gc_prev, Tag::<6, KerberosTime>::spec_to_value(x.deep_view()), enc_ticket_part_body_write_7(v));
                    assert(enc_ticket_part_body_write_0(v) == gc + enc_ticket_part_body_write_7(v));
                }
            },
            None => {
                proof {
                    assert(enc_ticket_part_body_write_6(v) == enc_ticket_part_body_write_7(v));
                    assert(enc_ticket_part_body_write_0(v) == gc + enc_ticket_part_body_write_7(v));
                }
            },
        }
        let ghost ch_prev7 = children@;
        let ghost gc_prev7 = gc;
        children.push(self.endtime.to_value());
        proof {
            assert(children@.drop_last() =~= ch_prev7);
            gc = gc.push(Tag::<7, KerberosTime>::spec_to_value(self.endtime.deep_view()));
            assert(crate::der::view_list(children@) == gc);
            assert(enc_ticket_part_body_write_7(v) == seq![Tag::<7, KerberosTime>::spec_to_value(self.endtime.deep_view())] + enc_ticket_part_body_write_8(v));
            lemma_snoc_concat(gc_prev7, Tag::<7, KerberosTime>::spec_to_value(self.endtime.deep_view()), enc_ticket_part_body_write_8(v));
            assert(enc_ticket_part_body_write_0(v) == gc + enc_ticket_part_body_write_8(v));
        }
        match &self.renew_till {
            Some(x) => {
                let ghost ch_prev = children@;
                let ghost gc_prev = gc;
                children.push(x.to_value());
                proof {
                    assert(children@.drop_last() =~= ch_prev);
                    gc = gc.push(Tag::<8, KerberosTime>::spec_to_value(x.deep_view()));
                    assert(crate::der::view_list(children@) == gc);
                    assert(enc_ticket_part_body_write_8(v) == seq![Tag::<8, KerberosTime>::spec_to_value(x.deep_view())] + enc_ticket_part_body_write_9(v));
                    lemma_snoc_concat(gc_prev, Tag::<8, KerberosTime>::spec_to_value(x.deep_view()), enc_ticket_part_body_write_9(v));
                    assert(enc_ticket_part_body_write_0(v) == gc + enc_ticket_part_body_write_9(v));
                }
            },
            None => {
                proof {
                    assert(enc_ticket_part_body_write_8(v) == enc_ticket_part_body_write_9(v));
                    assert(enc_ticket_part_body_write_0(v) == gc + enc_ticket_part_body_write_9(v));
                }
            },
        }
        match &self.caddr {
            Some(x) => {
                let ghost ch_prev = children@;
                let ghost gc_prev = gc;
                children.push(x.to_value());
                proof {
                    assert(children@.drop_last() =~= ch_prev);
                    gc = gc.push(Tag::<9, HostAddresses>::spec_to_value(x.deep_view()));
                    assert(crate::der::view_list(children@) == gc);
                    assert(enc_ticket_part_body_write_9(v) == seq![Tag::<9, HostAddresses>::spec_to_value(x.deep_view())] + enc_ticket_part_body_write_10(v));
                    lemma_snoc_concat(gc_prev, Tag::<9, HostAddresses>::spec_to_value(x.deep_view()), enc_ticket_part_body_write_10(v));
                    assert(enc_ticket_part_body_write_0(v) == gc + enc_ticket_part_body_write_10(v));
                }
            },
            None => {
                proof {
                    assert(enc_ticket_part_body_write_9(v) == enc_ticket_part_body_write_10(v));
                    assert(enc_ticket_part_body_write_0(v) == gc + enc_ticket_part_body_write_10(v));
                }
            },
        }
        match &self.authorization_data {
            Some(x) => {
                let ghost ch_prev = children@;
                let ghost gc_prev = gc;
                children.push(x.to_value());
                proof {
                    assert(children@.drop_last() =~= ch_prev);
                    gc = gc.push(Tag::<10, AuthorizationData>::spec_to_value(x.deep_view()));
                    assert(crate::der::view_list(children@) == gc);
                    assert(enc_ticket_part_body_write_10(v) == seq![Tag::<10, AuthorizationData>::spec_to_value(x.deep_view())] + enc_ticket_part_body_write_11(v));
                    lemma_snoc_concat(gc_prev, Tag::<10, AuthorizationData>::spec_to_value(x.deep_view()), enc_ticket_part_body_write_11(v));
                    assert(enc_ticket_part_body_write_0(v) == gc + enc_ticket_part_body_write_11(v));
                }
            },
            None => {
                proof {
                    assert(enc_ticket_part_body_write_10(v) == enc_ticket_part_body_write_11(v));
                    assert(enc_ticket_part_body_write_0(v) == gc + enc_ticket_part_body_write_11(v));
                }
            },
        }
        proof {
            assert(enc_ticket_part_body_write_11(v) == Seq::<AsnValue>::empty());
            lemma_concat_nil(gc);
            assert(AsnValue::Sequence(gc) == Self::spec_to_value(v));
        }
        Asn1Value::Sequence(children)
    }

    #[verifier::rlimit(100)]
    fn from_value(a: &Asn1Value) -> (r: Result<Self, KerlabError>) {
        match a {
            Asn1Value::Sequence(cs) => {
                proof {
                    crate::der::lemma_view_list(cs@);
                }
                let ghost vl = crate::der::view_list(cs@);
                proof {
                    assert(vl.skip(0) =~= vl);
                    assert(Self::spec_from_value(a@) == enc_ticket_part_body_read_0(vl.skip(0)));
                }
                let n = cs.len();
                let mut i: usize = 0;
                if i >= n {
                    proof {
                        assert(vl.skip(i as int).len() == 0);
                    }
                    return Err(KerlabError::new(KerlabErrorKind::Parsing, "missing field"));
                }
                proof {
                    assert(vl.skip(i as int)[0] == vl[i as int]);
                    assert(vl[i as int] == cs@[i as int]@);
                }
                let f_flags = match Tag::<0, TicketFlags>::from_value(&cs[i]) {
                    Ok(x) => x,
                    Err(e) => {
                        return Err(e);
                    },
                };
                proof {
                    lemma_skip_skip(vl, i as int);
                }
                i += 1;
                proof {
                    assert(Self::spec_from_value(a@) == enc_ticket_part_body_read_1(vl.skip(i as int), f_flags.deep_view()));
                }
                if i >= n {
                    proof {
                        assert(vl.skip(i as int).len() == 0);
                    }
                    return Err(KerlabError::new(KerlabErrorKind::Parsing, "missing field"));
                }
                proof {
                    assert(vl.skip(i as int)[0] == vl[i as int]);
                    assert(vl[i as int] == cs@[i as int]@);
                }
                let f_key = match Tag::<1, EncryptionKey>::from_value(&cs[i]) {
                    Ok(x) => x,
                    Err(e) => {
                        return Err(e);
                    },
                };
                proof {
                    lemma_skip_skip(vl, i as int);
                }
                i += 1;
                proof {
                    assert(Self::spec_from_value(a@) == enc_ticket_part_body_read_2(vl.skip(i as int), f_flags.deep_view(), f_key.deep_view()));
                }
                if i >= n {
                    proof {
                        assert(vl.skip(i as int).len() == 0);
                    }
                    return Err(KerlabError::new(KerlabErrorKind::Parsing, "missing field"));
                }
                proof {
                    assert(vl.skip(i as int)[0] == vl[i as int]);
                    assert(vl[i as int] == cs@[i as int]@);
                }
                let f_crealm = match Tag::<2, Realm>::from_value(&cs[i]) {
                    Ok(x) => x,
                    Err(e) => {
                        return Err(e);
                    },
                };
                proof {
                    lemma_skip_skip(vl, i as int);
                }
                i += 1;
                proof {
                    assert(Self::spec_from_value(a@) == enc_ticket_part_body_read_3(vl.skip(i as int), f_flags.deep_view(), f_key.deep_view(), f_crealm.deep_view()));
                }
                if i >= n {
                    proof {
                        assert(vl.skip(i as int).len() == 0);
                    }
                    return Err(KerlabError::new(KerlabErrorKind::Parsing, "missing field"));
                }
                proof {
                    assert(vl.skip(i as int)[0] == vl[i as int]);
                    assert(vl[i as int] == cs@[i as int]@);
                }
                let f_cname = match Tag::<3, PrincipalName>::from_value(&cs[i]) {
                    Ok(x) => x,
                    Err(e) => {
                        return Err(e);
                    },
                };
                proof {
                    lemma_skip_skip(vl, i as int);
                }
                i += 1;
                proof {
                    assert(Self::spec_from_value(a@) == enc_ticket_part_body_read_4(vl.skip(i as int), f_flags.deep_view(), f_key.deep_view(), f_crealm.deep_view(), f_cname.deep_view()));
                }
                if i >= n {
                    proof {
                        assert(vl.skip(i as int).len() == 0);
                    }
                    return Err(KerlabError::new(KerlabErrorKind::Parsing, "missing field"));
                }
                proof {
                    assert(vl.skip(i as int)[0] == vl[i as int]);
                    assert(vl[i as int] == cs@[i as int]@);
                }
                let f_transited = match Tag::<4, TransitedEncoding>::from_value(&cs[i]) {
                    Ok(x) => x,
                    Err(e) => {
                        return Err(e);
                    },
                };
                proof {
                    lemma_skip_skip(vl, i as int);
                }
                i += 1;
                proof {
                    assert(Self::spec_from_value(a@) == enc_ticket_part_body_read_5(vl.skip(i as int), f_flags.deep_view(), f_key.deep_view(), f_crealm.deep_view(), f_cname.deep_view(), f_transited.deep_view()));
                }
                if i >= n {
                    proof {
                        assert(vl.skip(i as int).len() == 0);
                    }
                    return Err(KerlabError::new(KerlabErrorKind::Parsing, "missing field"));
                }
                proof {
                    assert(vl.skip(i as int)[0] == vl[i as int]);
                    assert(vl[i as int] == cs@[i as int]@);
                }
                let f_authtime = match Tag::<5, KerberosTime>::from_value(&cs[i]) {
                    Ok(x) => x,
                    Err(e) => {
                        return Err(e);
                    },
                };
                proof {
                    lemma_skip_skip(vl, i as int);
                }
                i += 1;
                proof {
                    assert(Self::spec_from_value(a@) == enc_ticket_part_body_read_6(vl.skip(i as int), f_flags.deep_view(), f_key.deep_view(), f_crealm.deep_view(), f_cname.deep_view(), f_transited.deep_view(), f_authtime.deep_view()));
                }
                let mut f_starttime: Option<Tag<6, KerberosTime>> = None;
                if i < n && is_ctx(&cs[i], 6) {
                    proof {
                        assert(vl.skip(i as int)[0] == vl[i as int]);
                        assert(vl[i as int] == cs@[i as int]@);
                    }
                    match Tag::<6, KerberosTime>::from_value(&cs[i]) {
                        Ok(x) => {
                            proof {
                                lemma_skip_skip(vl, i as int);
                            }
                            f_starttime = Some(x);
                            i += 1;
                        },
                        Err(e) => {
                            return Err(e);
                        },
                    }
                } else {
                    proof {
                        if i < n {
                            assert(vl.skip(i as int)[0] == vl[i as int]);
                            assert(vl[i as int] == cs@[i as int]@);
                        }
                    }
                }
                proof {
                    assert(Self::spec_from_value(a@) == enc_ticket_part_body_read_7(vl.skip(i as int), f_flags.deep_view(), f_key.deep_view(), f_crealm.deep_view(), f_cname.deep_view(), f_transited.deep_view(), f_authtime.deep_view(), f_starttime.deep_view()));
                }
                if i >= n {
                    proof {
                        assert(vl.skip(i as int).len() == 0);
                    }
                    return Err(KerlabError::new(KerlabErrorKind::Parsing, "missing field"));
                }
                proof {
                    assert(vl.skip(i as int)[0] == vl[i as int]);
                    assert(vl[i as int] == cs@[i as int]@);
                }
                let f_endtime = match Tag::<7, KerberosTime>::from_value(&cs[i]) {
                    Ok(x) => x,
                    Err(e) => {
                        return Err(e);
                    },
                };
                proof {
                    lemma_skip_skip(vl, i as int);
                }
                i += 1;
                proof {
                    assert(Self::spec_from_value(a@) == enc_ticket_part_body_read_8(vl.skip(i as int), f_flags.deep_view(), f_key.deep_view(), f_crealm.deep_view(), f_cname.deep_view(), f_transited.deep_view(), f_authtime.deep_view(), f_starttime.deep_view(), f_endtime.deep_view()));
                }
                let mut f_renew_till: Option<Tag<8, KerberosTime>> = None;
                if i < n && is_ctx(&cs[i], 8) {
                    proof {
                        assert(vl.skip(i as int)[0] == vl[i as int]);
                        assert(vl[i as int] == cs@[i as int]@);
                    }
                    match Tag::<8, KerberosTime>::from_value(&cs[i]) {
                        Ok(x) => {
                            proof {
                                lemma_skip_skip(vl, i as int);
                            }
                            f_renew_till = Some(x);
                            i += 1;
                        },
                        Err(e) => {
                            return Err(e);
                        },
                    }
                } else {
                    proof {
                        if i < n {
                            assert(vl.skip(i as int)[0] == vl[i as int]);
                            assert(vl[i as int] == cs@[i as int]@);
                        }
                    }
                }
                proof {
                    assert(Self::spec_from_value(a@) == enc_ticket_part_body_read_9(vl.skip(i as int), f_flags.deep_view(), f_key.deep_view(), f_crealm.deep_view(), f_cname.deep_view(), f_transited.deep_view(), f_authtime.deep_view(), f_starttime.deep_view(), f_endtime.deep_view(), f_renew_till.deep_view()));
                }
                let mut f_caddr: Option<Tag<9, HostAddresses>> = None;
                if i < n && is_ctx(&cs[i], 9) {
                    proof {
                        assert(vl.skip(i as int)[0] == vl[i as int]);
                        assert(vl[i as int] == cs@[i as int]@);
                    }
                    match Tag::<9, HostAddresses>::from_value(&cs[i]) {
                        Ok(x) => {
                            proof {
                                lemma_skip_skip(vl, i as int);
                            }
                            f_caddr = Some(x);
                            i += 1;
                        },
                        Err(e) => {
                            return Err(e);
                        },
                    }
                } else {
                    proof {
                        if i < n {
                            assert(vl.skip(i as int)[0] == vl[i as int]);
                            assert(vl[i as int] == cs@[i as int]@);
                        }
                    }
                }
                proof {
                    assert(Self::spec_from_value(a@) == enc_ticket_part_body_read_10(vl.skip(i as int), f_flags.deep_view(), f_key.deep_view(), f_crealm.deep_view(), f_cname.deep_view(), f_transited.deep_view(), f_authtime.deep_view(), f_starttime.deep_view(), f_endtime.deep_view(), f_renew_till.deep_view(), f_caddr.deep_view()));
                }
                let mut f_authorization_data: Option<Tag<10, AuthorizationData>> = None;
                if i < n && is_ctx(&cs[i], 10) {
                    proof {
                        assert(vl.skip(i as int)[0] == vl[i as int]);
                        assert(vl[i as int] == cs@[i as int]@);
                    }
                    match Tag::<10, AuthorizationData>::from_value(&cs[i]) {
                        Ok(x) => {
                            proof {
                                lemma_skip_skip(vl, i as int);
                            }
                            f_authorization_data = Some(x);
                            i += 1;
                        },
                        Err(e) => {
                            return Err(e);
                        },
                    }
                } else {
                    proof {
                        if i < n {
                            assert(vl.skip(i as int)[0] == vl[i as int]);
                            assert(vl[i as int] == cs@[i as int]@);
                        }
                    }
                }
                proof {
                    assert(Self::spec_from_value(a@) == enc_ticket_part_body_read_11(vl.skip(i as int), f_flags.deep_view(), f_key.deep_view(), f_crealm.deep_view(), f_cname.deep_view(), f_transited.deep_view(), f_authtime.deep_view(), f_starttime.deep_view(), f_endtime.deep_view(), f_renew_till.deep_view(), f_caddr.deep_view(), f_authorization_data.deep_view()));
                }
                if i != n {
                    return Err(KerlabError::new(KerlabErrorKind::Parsing, "unexpected extra field"));
                }
                proof {
                    assert(vl.skip(i as int).len() == 0);
                }
                Ok(EncTicketPartBody {
                    flags: f_flags,
                    key: f_key,
                    crealm: f_crealm,
                    cname: f_cname,
                    transited: f_transited,
                    authtime: f_authtime,
                    starttime: f_starttime,
                    endtime: f_endtime,
                    renew_till: f_renew_till,
                    caddr: f_caddr,
                    authorization_data: f_authorization_data,
                })
            },
            _ => Err(KerlabError::new(KerlabErrorKind::Parsing, "expected a sequence")),
        }
    }

    proof fn lemma_round_trip(v: EncTicketPartBodyView) {
        enc_ticket_part_body_rt_0(v);
        assert(Self::spec_from_value(Self::spec_to_value(v)) == Some(v));
    }
}

/// Reading no children past the last field yields the view back.
proof fn enc_ticket_part_body_rt_11(v: EncTicketPartBodyView)
    requires
        EncTicketPartBody::view_wf(v),
    ensures
        enc_ticket_part_body_read_11(enc_ticket_part_body_write_11(v), v.flags, v.key, v.crealm, v.cname, v.transited, v.authtime, v.starttime, v.endtime, v.renew_till, v.caddr, v.authorization_data) == Some(v),
        forall|j: int| 0 <= j < enc_ticket_part_body_write_11(v).len() ==> value_wf(#[trigger] enc_ticket_part_body_write_11(v)[j]),
{
    assert(enc_ticket_part_body_write_11(v).len() == 0);
    assert((EncTicketPartBodyView { flags: v.flags, key: v.key, crealm: v.crealm, cname: v.cname, transited: v.transited, authtime: v.authtime, starttime: v.starttime, endtime: v.endtime, renew_till: v.renew_till, caddr: v.caddr, authorization_data: v.authorization_data }) =~= v);
}

/// Reading the children written from field 10 on yields the view back.
proof fn enc_ticket_part_body_rt_10(v: EncTicketPartBodyView)
    requires
        EncTicketPartBody::view_wf(v),
    ensures
        enc_ticket_part_body_read_10(enc_ticket_part_body_write_10(v), v.flags, v.key, v.crealm, v.cname, v.transited, v.authtime, v.starttime, v.endtime, v.renew_till, v.caddr) == Some(v),
        forall|j: int| 0 <= j < enc_ticket_part_body_write_10(v).len() ==> value_wf(#[trigger] enc_ticket_part_body_write_10(v)[j]),
{
    enc_ticket_part_body_rt_11(v);
    match v.authorization_data {
        Some(x) => {
            Tag::<10, AuthorizationData>::lemma_round_trip(x);
            assert(enc_ticket_part_body_write_10(v) == seq![Tag::<10, AuthorizationData>::spec_to_value(x)] + enc_ticket_part_body_write_11(v));
            assert(enc_ticket_part_body_write_10(v)[0] == Tag::<10, AuthorizationData>::spec_to_value(x));
            assert(has_ctx(enc_ticket_part_body_write_10(v)[0], 10));
            lemma_cons_skip(Tag::<10, AuthorizationData>::spec_to_value(x), enc_ticket_part_body_write_11(v));
            assert(enc_ticket_part_body_read_10(enc_ticket_part_body_write_10(v), v.flags, v.key, v.crealm, v.cname, v.transited, v.authtime, v.starttime, v.endtime, v.renew_till, v.caddr) == enc_ticket_part_body_read_11(enc_ticket_part_body_write_11(v), v.flags, v.key, v.crealm, v.cname, v.transited, v.authtime, v.starttime, v.endtime, v.renew_till, v.caddr, Some(x)));
            assert forall|j: int| 0 <= j < enc_ticket_part_body_write_10(v).len() implies value_wf(#[trigger] enc_ticket_part_body_write_10(v)[j]) by {
                if j >= 1 {
                    assert(enc_ticket_part_body_write_10(v)[j] == enc_ticket_part_body_write_11(v)[j - 1]);
                }
            }
        },
        None => {
            assert(enc_ticket_part_body_write_10(v) == enc_ticket_part_body_write_11(v));
            if enc_ticket_part_body_write_11(v).len() > 0 {
                assert(!has_ctx(enc_ticket_part_body_write_11(v)[0], 10));
            }
            assert(enc_ticket_part_body_read_10(enc_ticket_part_body_write_10(v), v.flags, v.key, v.crealm, v.cname, v.transited, v.authtime, v.starttime, v.endtime, v.renew_till, v.caddr) == enc_ticket_part_body_read_11(enc_ticket_part_body_write_11(v), v.flags, v.key, v.crealm, v.cname, v.transited, v.authtime, v.starttime, v.endtime, v.renew_till, v.caddr, None::<Seq<AuthorizationDataElementView>>));
        },
    }
}

/// Reading the children written from field 9 on yields the view back.
proof fn enc_ticket_part_body_rt_9(v: EncTicketPartBodyView)
    requires
        EncTicketPartBody::view_wf(v),
    ensures
        enc_ticket_part_body_read_9(enc_ticket_part_body_write_9(v), v.flags, v.key, v.crealm, v.cname, v.transited, v.authtime, v.starttime, v.endtime, v.renew_till) == Some(v),
        forall|j: int| 0 <= j < enc_ticket_part_body_write_9(v).len() ==> value_wf(#[trigger] enc_ticket_part_body_write_9(v)[j]),
{
    enc_ticket_part_body_rt_10(v);
    match v.caddr {
        Some(x) => {
            Tag::<9, HostAddresses>::lemma_round_trip(x);
            assert(enc_ticket_part_body_write_9(v) == seq![Tag::<9, HostAddresses>::spec_to_value(x)] + enc_ticket_part_body_write_10(v));
            assert(enc_ticket_part_body_write_9(v)[0] == Tag::<9, HostAddresses>::spec_to_value(x));
            assert(has_ctx(enc_ticket_part_body_write_9(v)[0], 9));
            lemma_cons_skip(Tag::<9, HostAddresses>::spec_to_value(x), enc_ticket_part_body_write_10(v));
            assert(enc_ticket_part_body_read_9(enc_ticket_part_body_write_9(v), v.flags, v.key, v.crealm, v.cname, v.transited, v.authtime, v.starttime, v.endtime, v.renew_till) == enc_ticket_part_body_read_10(enc_ticket_part_body_write_10(v), v.flags, v.key, v.crealm, v.cname, v.transited, v.authtime, v.starttime, v.endtime, v.renew_till, Some(x)));
            assert forall|j: int| 0 <= j < enc_ticket_part_body_write_9(v).len() implies value_wf(#[trigger] enc_ticket_part_body_write_9(v)[j]) by {
                if j >= 1 {
                    assert(enc_ticket_part_body_write_9(v)[j] == enc_ticket_part_body_write_10(v)[j - 1]);
                }
            }
        },
        None => {
            assert(enc_ticket_part_body_write_9(v) == enc_ticket_part_body_write_10(v));
            if enc_ticket_part_body_write_10(v).len() > 0 {
                assert(!has_ctx(enc_ticket_part_body_write_10(v)[0], 9));
            }
            assert(enc_ticket_part_body_read_9(enc_ticket_part_body_write_9(v), v.flags, v.key, v.crealm, v.cname, v.transited, v.authtime, v.starttime, v.endtime, v.renew_till) == enc_ticket_part_body_read_10(enc_ticket_part_body_write_10(v), v.flags, v.key, v.crealm, v.cname, v.transited, v.authtime, v.starttime, v.endtime, v.renew_till, None::<Seq<HostAddressView>>));
        },
    }
}

/// Reading the children written from field 8 on yields the view back.
proof fn enc_ticket_part_body_rt_8(v: EncTicketPartBodyView)
    requires
        EncTicketPartBody::view_wf(v),
    ensures
        enc_ticket_part_body_read_8(enc_ticket_part_body_write_8(v), v.flags, v.key, v.crealm, v.cname, v.transited, v.authtime, v.starttime, v.endtime) == Some(v),
        forall|j: int| 0 <= j < enc_ticket_part_body_write_8(v).len() ==> value_wf(#[trigger] enc_ticket_part_body_write_8(v)[j]),
{
    enc_ticket_part_body_rt_9(v);
    match v.renew_till {
        Some(x) => {
            Tag::<8, KerberosTime>::lemma_round_trip(x);
            assert(enc_ticket_part_body_write_8(v) == seq![Tag::<8, KerberosTime>::spec_to_value(x)] + enc_ticket_part_body_write_9(v));
            assert(enc_ticket_part_body_write_8(v)[0] == Tag::<8, KerberosTime>::spec_to_value(x));
            assert(has_ctx(enc_ticket_part_body_write_8(v)[0], 8));
            lemma_cons_skip(Tag::<8, KerberosTime>::spec_to_value(x), enc_ticket_part_body_write_9(v));
            assert(enc_ticket_part_body_read_8(enc_ticket_part_body_write_8(v), v.flags, v.key, v.crealm, v.cname, v.transited, v.authtime, v.starttime, v.endtime) == enc_ticket_part_body_read_9(enc_ticket_part_body_write_9(v), v.flags, v.key, v.crealm, v.cname, v.transited, v.authtime, v.starttime, v.endtime, Some(x)));
            assert forall|j: int| 0 <= j < enc_ticket_part_body_write_8(v).len() implies value_wf(#[trigger] enc_ticket_part_body_write_8(v)[j]) by {
                if j >= 1 {
                    assert(enc_ticket_part_body_write_8(v)[j] == enc_ticket_part_body_write_9(v)[j - 1]);
                }
            }
        },
        None => {
            assert(enc_ticket_part_body_write_8(v) == enc_ticket_part_body_write_9(v));
            if enc_ticket_part_body_write_9(v).len() > 0 {
                assert(!has_ctx(enc_ticket_part_body_write_9(v)[0], 8));
            }
            assert(enc_ticket_part_body_read_8(enc_ticket_part_body_write_8(v), v.flags, v.key, v.crealm, v.cname, v.transited, v.authtime, v.starttime, v.endtime) == enc_ticket_part_body_read_9(enc_ticket_part_body_write_9(v), v.flags, v.key, v.crealm, v.cname, v.transited, v.authtime, v.starttime, v.endtime, None::<GeneralizedTime>));
        },
    }
}

/// Reading the children written from field 7 on yields the view back.
proof fn enc_ticket_part_body_rt_7(v: EncTicketPartBodyView)
    requires
        EncTicketPartBody::view_wf(v),
    ensures
        enc_ticket_part_body_read_7(enc_ticket_part_body_write_7(v), v.flags, v.key, v.crealm, v.cname, v.transited, v.authtime, v.starttime) == Some(v),
        forall|j: int| 0 <= j < enc_ticket_part_body_write_7(v).len() ==> value_wf(#[trigger] enc_ticket_part_body_write_7(v)[j]),
{
    enc_ticket_part_body_rt_8(v);
    Tag::<7, KerberosTime>::lemma_round_trip(v.endtime);
    assert(enc_ticket_part_body_write_7(v) == seq![Tag::<7, KerberosTime>::spec_to_value(v.endtime)] + enc_ticket_part_body_write_8(v));
    assert(enc_ticket_part_body_write_7(v)[0] == Tag::<7, KerberosTime>::spec_to_value(v.endtime));
    assert(has_ctx(enc_ticket_part_body_write_7(v)[0], 7));
    lemma_cons_skip(Tag::<7, KerberosTime>::spec_to_value(v.endtime), enc_ticket_part_body_write_8(v));
    assert(enc_ticket_part_body_read_7(enc_ticket_part_body_write_7(v), v.flags, v.key, v.crealm, v.cname, v.transited, v.authtime, v.starttime) == enc_ticket_part_body_read_8(enc_ticket_part_body_write_8(v), v.flags, v.key, v.crealm, v.cname, v.transited, v.authtime, v.starttime, v.endtime));
    assert forall|j: int| 0 <= j < enc_ticket_part_body_write_7(v).len() implies value_wf(#[trigger] enc_ticket_part_body_write_7(v)[j]) by {
        if j >= 1 {
            assert(enc_ticket_part_body_write_7(v)[j] == enc_ticket_part_body_write_8(v)[j - 1]);
        }
    }
}

/// Reading the children written from field 6 on yields the view back.
proof fn enc_ticket_part_body_rt_6(v: EncTicketPartBodyView)
    requires
        EncTicketPartBody::view_wf(v),
    ensures
        enc_ticket_part_body_read_6(enc_ticket_part_body_write_6(v), v.flags, v.key, v.crealm, v.cname, v.transited, v.authtime) == Some(v),
        forall|j: int| 0 <= j < enc_ticket_part_body_write_6(v).len() ==> value_wf(#[trigger] enc_ticket_part_body_write_6(v)[j]),
{
    enc_ticket_part_body_rt_7(v);
    match v.starttime {
        Some(x) => {
            Tag::<6, KerberosTime>::lemma_round_trip(x);
            assert(enc_ticket_part_body_write_6(v) == seq![Tag::<6, KerberosTime>::spec_to_value(x)] + enc_ticket_part_body_write_7(v));
            assert(enc_ticket_part_body_write_6(v)[0] == Tag::<6, KerberosTime>::spec_to_value(x));
            assert(has_ctx(enc_ticket_part_body_write_6(v)[0], 6));
            lemma_cons_skip(Tag::<6, KerberosTime>::spec_to_value(x), enc_ticket_part_body_write_7(v));
            assert(enc_ticket_part_body_read_6(enc_ticket_part_body_write_6(v), v.flags, v.key, v.crealm, v.cname, v.transited, v.authtime) == enc_ticket_part_body_read_7(enc_ticket_part_body_write_7(v), v.flags, v.key, v.crealm, v.cname, v.transited, v.authtime, Some(x)));
            assert forall|j: int| 0 <= j < enc_ticket_part_body_write_6(v).len() implies value_wf(#[trigger] enc_ticket_part_body_write_6(v)[j]) by {
                if j >= 1 {
                    assert(enc_ticket_part_body_write_6(v)[j] == enc_ticket_part_body_write_7(v)[j - 1]);
                }
            }
        },
        None => {
            assert(enc_ticket_part_body_write_6(v) == enc_ticket_part_body_write_7(v));
            if enc_ticket_part_body_write_7(v).len() > 0 {
                assert(!has_ctx(enc_ticket_part_body_write_7(v)[0], 6));
            }
            assert(enc_ticket_part_body_read_6(enc_ticket_part_body_write_6(v), v.flags, v.key, v.crealm, v.cname, v.transited, v.authtime) == enc_ticket_part_body_read_7(enc_ticket_part_body_write_7(v), v.flags, v.key, v.crealm, v.cname, v.transited, v.authtime, None::<GeneralizedTime>));
        },
    }
}

/// Reading the children written from field 5 on yields the view back.
proof fn enc_ticket_part_body_rt_5(v: EncTicketPartBodyView)
    requires
        EncTicketPartBody::view_wf(v),
    ensures
        enc_ticket_part_body_read_5(enc_ticket_part_body_write_5(v), v.flags, v.key, v.crealm, v.cname, v.transited) == Some(v),
        forall|j: int| 0 <= j < enc_ticket_part_body_write_5(v).len() ==> value_wf(#[trigger] enc_ticket_part_body_write_5(v)[j]),
{
    enc_ticket_part_body_rt_6(v);
    Tag::<5, KerberosTime>::lemma_round_trip(v.authtime);
    assert(enc_ticket_part_body_write_5(v) == seq![Tag::<5, KerberosTime>::spec_to_value(v.authtime)] + enc_ticket_part_body_write_6(v));
    assert(enc_ticket_part_body_write_5(v)[0] == Tag::<5, KerberosTime>::spec_to_value(v.authtime));
    assert(has_ctx(enc_ticket_part_body_write_5(v)[0], 5));
    lemma_cons_skip(Tag::<5, KerberosTime>::spec_to_value(v.authtime), enc_ticket_part_body_write_6(v));
    assert(enc_ticket_part_body_read_5(enc_ticket_part_body_write_5(v), v.flags, v.key, v.crealm, v.cname, v.transited) == enc_ticket_part_body_read_6(enc_ticket_part_body_write_6(v), v.flags, v.key, v.crealm, v.cname, v.transited, v.authtime));
    assert forall|j: int| 0 <= j < enc_ticket_part_body_write_5(v).len() implies value_wf(#[trigger] enc_ticket_part_body_write_5(v)[j]) by {
        if j >= 1 {
            assert(enc_ticket_part_body_write_5(v)[j] == enc_ticket_part_body_write_6(v)[j - 1]);
        }
    }
}

/// Reading the children written from field 4 on yields the view back.
proof fn enc_ticket_part_body_rt_4(v: EncTicketPartBodyView)
    requires
        EncTicketPartBody::view_wf(v),
    ensures
        enc_ticket_part_body_read_4(enc_ticket_part_body_write_4(v), v.flags, v.key, v.crealm, v.cname) == Some(v),
        forall|j: int| 0 <= j < enc_ticket_part_body_write_4(v).len() ==> value_wf(#[trigger] enc_ticket_part_body_write_4(v)[j]),
{
    enc_ticket_part_body_rt_5(v);
    Tag::<4, TransitedEncoding>::lemma_round_trip(v.transited);
    assert(enc_ticket_part_body_write_4(v) == seq![Tag::<4, TransitedEncoding>::spec_to_value(v.transited)] + enc_ticket_part_body_write_5(v));
    assert(enc_ticket_part_body_write_4(v)[0] == Tag::<4, TransitedEncoding>::spec_to_value(v.transited));
    assert(has_ctx(enc_ticket_part_body_write_4(v)[0], 4));
    lemma_cons_skip(Tag::<4, TransitedEncoding>::spec_to_value(v.transited), enc_ticket_part_body_write_5(v));
    assert(enc_ticket_part_body_read_4(enc_ticket_part_body_write_4(v), v.flags, v.key, v.crealm, v.cname) == enc_ticket_part_body_read_5(enc_ticket_part_body_write_5(v), v.flags, v.key, v.crealm, v.cname, v.transited));
    assert forall|j: int| 0 <= j < enc_ticket_part_body_write_4(v).len() implies value_wf(#[trigger] enc_ticket_part_body_write_4(v)[j]) by {
        if j >= 1 {
            assert(enc_ticket_part_body_write_4(v)[j] == enc_ticket_part_body_write_5(v)[j - 1]);
        }
    }
}

/// Reading the children written from field 3 on yields the view back.
proof fn enc_ticket_part_body_rt_3(v: EncTicketPartBodyView)
    requires
        EncTicketPartBody::view_wf(v),
    ensures
        enc_ticket_part_body_read_3(enc_ticket_part_body_write_3(v), v.flags, v.key, v.crealm) == Some(v),
        forall|j: int| 0 <= j < enc_ticket_part_body_write_3(v).len() ==> value_wf(#[trigger] enc_ticket_part_body_write_3(v)[j]),
{
    enc_ticket_part_body_rt_4(v);
    Tag::<3, PrincipalName>::lemma_round_trip(v.cname);
    assert(enc_ticket_part_body_write_3(v) == seq![Tag::<3, PrincipalName>::spec_to_value(v.cname)] + enc_ticket_part_body_write_4(v));
    assert(enc_ticket_part_body_write_3(v)[0] == Tag::<3, PrincipalName>::spec_to_value(v.cname));
    assert(has_ctx(enc_ticket_part_body_write_3(v)[0], 3));
    lemma_cons_skip(Tag::<3, PrincipalName>::spec_to_value(v.cname), enc_ticket_part_body_write_4(v));
    assert(enc_ticket_part_body_read_3(enc_ticket_part_body_write_3(v), v.flags, v.key, v.crealm) == enc_ticket_part_body_read_4(enc_ticket_part_body_write_4(v), v.flags, v.key, v.crealm, v.cname));
    assert forall|j: int| 0 <= j < enc_ticket_part_body_write_3(v).len() implies value_wf(#[trigger] enc_ticket_part_body_write_3(v)[j]) by {
        if j >= 1 {
            assert(enc_ticket_part_body_write_3(v)[j] == enc_ticket_part_body_write_4(v)[j - 1]);
        }
    }
}

/// Reading the children written from field 2 on yields the view back.
proof fn enc_ticket_part_body_rt_2(v: EncTicketPartBodyView)
    requires
        EncTicketPartBody::view_wf(v),
    ensures
        enc_ticket_part_body_read_2(enc_ticket_part_body_write_2(v), v.flags, v.key) == Some(v),
        forall|j: int| 0 <= j < enc_ticket_part_body_write_2(v).len() ==> value_wf(#[trigger] enc_ticket_part_body_write_2(v)[j]),
{
    enc_ticket_part_body_rt_3(v);
    Tag::<2, Realm>::lemma_round_trip(v.crealm);
    assert(enc_ticket_part_body_write_2(v) == seq![Tag::<2, Realm>::spec_to_value(v.crealm)] + enc_ticket_part_body_write_3(v));
    assert(enc_ticket_part_body_write_2(v)[0] == Tag::<2, Realm>::spec_to_value(v.crealm));
    assert(has_ctx(enc_ticket_part_body_write_2(v)[0], 2));
    lemma_cons_skip(Tag::<2, Realm>::spec_to_value(v.crealm), enc_ticket_part_body_write_3(v));
    assert(enc_ticket_part_body_read_2(enc_ticket_part_body_write_2(v), v.flags, v.key) == enc_ticket_part_body_read_3(enc_ticket_part_body_write_3(v), v.flags, v.key, v.crealm));
    assert forall|j: int| 0 <= j < enc_ticket_part_body_write_2(v).len() implies value_wf(#[trigger] enc_ticket_part_body_write_2(v)[j]) by {
        if j >= 1 {
            assert(enc_ticket_part_body_write_2(v)[j] == enc_ticket_part_body_write_3(v)[j - 1]);
        }
    }
}

/// Reading the children written from field 1 on yields the view back.
proof fn enc_ticket_part_body_rt_1(v: EncTicketPartBodyView)
    requires
        EncTicketPartBody::view_wf(v),
    ensures
        enc_ticket_part_body_read_1(enc_ticket_part_body_write_1(v), v.flags) == Some(v),
        forall|j: int| 0 <= j < enc_ticket_part_body_write_1(v).len() ==> value_wf(#[trigger] enc_ticket_part_body_write_1(v)[j]),
{
    enc_ticket_part_body_rt_2(v);
    Tag::<1, EncryptionKey>::lemma_round_trip(v.key);
    assert(enc_ticket_part_body_write_1(v) == seq![Tag::<1, EncryptionKey>::spec_to_value(v.key)] + enc_ticket_part_body_write_2(v));
    assert(enc_ticket_part_body_write_1(v)[0] == Tag::<1, EncryptionKey>::spec_to_value(v.key));
    assert(has_ctx(enc_ticket_part_body_write_1(v)[0], 1));
    lemma_cons_skip(Tag::<1, EncryptionKey>::spec_to_value(v.key), enc_ticket_part_body_write_2(v));
    assert(enc_ticket_part_body_read_1(enc_ticket_part_body_write_1(v), v.flags) == enc_ticket_part_body_read_2(enc_ticket_part_body_write_2(v), v.flags, v.key));
    assert forall|j: int| 0 <= j < enc_ticket_part_body_write_1(v).len() implies value_wf(#[trigger] enc_ticket_part_body_write_1(v)[j]) by {
        if j >= 1 {
            assert(enc_ticket_part_body_write_1(v)[j] == enc_ticket_part_body_write_2(v)[j - 1]);
        }
    }
}

/// Reading the children written from field 0 on yields the view back.
proof fn enc_ticket_part_body_rt_0(v: EncTicketPartBodyView)
    requires
        EncTicketPartBody::view_wf(v),
    ensures
        enc_ticket_part_body_read_0(enc_ticket_part_body_write_0(v)) == Some(v),
        forall|j: int| 0 <= j < enc_ticket_part_body_write_0(v).len() ==> value_wf(#[trigger] enc_ticket_part_body_write_0(v)[j]),
{
    enc_ticket_part_body_rt_1(v);
    Tag::<0, TicketFlags>::lemma_round_trip(v.flags);
    assert(enc_ticket_part_body_write_0(v) == seq![Tag::<0, TicketFlags>::spec_to_value(v.flags)] + enc_ticket_part_body_write_1(v));
    assert(enc_ticket_part_body_write_0(v)[0] == Tag::<0, TicketFlags>::spec_to_value(v.flags));
    assert(has_ctx(enc_ticket_part_body_write_0(v)[0], 0));
    lemma_cons_skip(Tag::<0, TicketFlags>::spec_to_value(v.flags), enc_ticket_part_body_write_1(v));
    assert(enc_ticket_part_body_read_0(enc_ticket_part_body_write_0(v)) == enc_ticket_part_body_read_1(enc_ticket_part_body_write_1(v), v.flags));
    assert forall|j: int| 0 <= j < enc_ticket_part_body_write_0(v).len() implies value_wf(#[trigger] enc_ticket_part_body_write_0(v)[j]) by {
        if j >= 1 {
            assert(enc_ticket_part_body_write_0(v)[j] == enc_ticket_part_body_write_1(v)[j - 1]);
        }
    }
}

/// A ticket: `[APPLICATION 1]` around its body.
pub type Ticket = Application<1, TicketBody>;

/// The decrypted part of a ticket: `[APPLICATION 3]` around its body.
pub type EncTicketPart = Application<3, EncTicketPartBody>;

/// The AD-IF-RELEVANT wrapper is itself authorization data.
pub type AdIfRelevant = AuthorizationData;

/// The authorization-data element types, among them the Windows PAC.
#[derive(Clone, Copy, Debug, PartialEq, Eq, Structural)]
pub enum AdDataType {
    AdIfRelevant,
    AdIntendedForServer,
    AdIntendedForApplicationClass,
    AdKdcIssued,
    AdAndOr,
    AdMandatoryTicketExtensions,
    AdInTicketExtensions,
    AdMandatoryForKdc,
    OsfDce,
    Sesame,
    AdOsfDcePkiCertid,
    AdWin2kPac,
    AdEtypeNegotiation,
}

impl AdDataType {
    /// The integer this element type is identified by on the wire.
    pub open spec fn spec_value(&self) -> u32 {
        match self {
            AdDataType::AdIfRelevant => 1,
            AdDataType::AdIntendedForServer => 2,
            AdDataType::AdIntendedForApplicationClass => 3,
            AdDataType::AdKdcIssued => 4,
            AdDataType::AdAndOr => 5,
            AdDataType::AdMandatoryTicketExtensions => 6,
            AdDataType::AdInTicketExtensions => 7,
            AdDataType::AdMandatoryForKdc => 8,
            AdDataType::OsfDce => 64,
            AdDataType::Sesame => 65,
            AdDataType::AdOsfDcePkiCertid => 66,
            AdDataType::AdWin2kPac => 128,
            AdDataType::AdEtypeNegotiation => 129,
        }
    }

    /// The integer this element type is identified by on the wire.
    pub fn value(&self) -> (r: u32)
        ensures
            r == self.spec_value(),
    {
        match self {
            AdDataType::AdIfRelevant => 1,
            AdDataType::AdIntendedForServer => 2,
            AdDataType::AdIntendedForApplicationClass => 3,
            AdDataType::AdKdcIssued => 4,
            AdDataType::AdAndOr => 5,
            AdDataType::AdMandatoryTicketExtensions => 6,
            AdDataType::AdInTicketExtensions => 7,
            AdDataType::AdMandatoryForKdc => 8,
            AdDataType::OsfDce => 64,
            AdDataType::Sesame => 65,
            AdDataType::AdOsfDcePkiCertid => 66,
            AdDataType::AdWin2kPac => 128,
            AdDataType::AdEtypeNegotiation => 129,
        }
    }
}

} // verus!
