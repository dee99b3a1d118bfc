//! The KDC reply messages: AS-REP and TGS-REP share the KDC-REP shape of
//! RFC 1510 section 5.4.2, with their encrypted parts.

use vstd::prelude::*;

verus! {

use crate::asn1::{
    Asn1Data, lemma_concat_nil, lemma_cons_skip, lemma_nil_concat, lemma_skip_skip, lemma_snoc_concat, BitStringView, GeneralString, Integer, OctetString, SequenceOf, SInteger, Tag,
    has_ctx, is_ctx,
};
use crate::base::{KerberosTime, Realm};
use crate::encryption::{spec_open_cipher, KeyUsage};
use crate::error::KerlabResult;
use crate::ntlm::{md4_of, utf16le_of};
use crate::der::{AsnValue, Asn1Value, GeneralizedTime, value_wf};
use crate::error::{KerlabError, KerlabErrorKind};

use crate::asn1::Application;
use crate::base::{
    HostAddresses, HostAddressView, LastReq, LastReqBodyView, PrincipalName, PrincipalNameView,
    TicketFlags,
};
use crate::encryption::{EncryptedData, EncryptedDataView, EncryptionKey, EncryptionKeyView};
use crate::padata::{PaData, PaDataView};
use crate::ticket::{Ticket, TicketBodyView};

/// A KDC reply (`pvno[0], msg-type[1], padata[2] OPTIONAL, crealm[3], cname[4], ticket[5], enc-part[6]`).
#[derive(Debug, Clone, PartialEq, Default)]
pub struct KdcRep {
    pub pvno: Tag<0, Integer>,
    pub msg_type: Tag<1, Integer>,
    pub padata: Option<Tag<2, SequenceOf<PaData>>>,
    pub crealm: Tag<3, Realm>,
    pub cname: Tag<4, PrincipalName>,
    pub ticket: Tag<5, Ticket>,
    pub enc_part: Tag<6, EncryptedData>,
}

/// The deep view of [`KdcRep`].
#[verifier::ext_equal]
pub struct KdcRepView {
    pub pvno: u32,
    pub msg_type: u32,
    pub padata: Option<Seq<PaDataView>>,
    pub crealm: Seq<u8>,
    pub cname: PrincipalNameView,
    pub ticket: TicketBodyView,
    pub enc_part: EncryptedDataView,
}

impl DeepView for KdcRep {
    type V = KdcRepView;

    open spec fn deep_view(&self) -> KdcRepView {
        KdcRepView {
            pvno: self.pvno.deep_view(),
            msg_type: self.msg_type.deep_view(),
            padata: self.padata.deep_view(),
            crealm: self.crealm.deep_view(),
            cname: self.cname.deep_view(),
            ticket: self.ticket.deep_view(),
            enc_part: self.enc_part.deep_view(),
        }
    }
}

/// The children a [`KdcRep`] writes from its field 0 on.
pub open spec fn kdc_rep_write_0(v: KdcRepView) -> Seq<AsnValue> {
    seq![Tag::<0, Integer>::spec_to_value(v.pvno)] + kdc_rep_write_1(v)
}

/// The children a [`KdcRep`] writes from its field 1 on.
pub open spec fn kdc_rep_write_1(v: KdcRepView) -> Seq<AsnValue> {
    seq![Tag::<1, Integer>::spec_to_value(v.msg_type)] + kdc_rep_write_2(v)
}

/// The children a [`KdcRep`] writes from its field 2 on.
pub open spec fn kdc_rep_write_2(v: KdcRepView) -> Seq<AsnValue> {
    match v.padata {
        Some(x) => seq![Tag::<2, SequenceOf<PaData>>::spec_to_value(x)] + kdc_rep_write_3(v),
        None => kdc_rep_write_3(v),
    }
}

/// The children a [`KdcRep`] writes from its field 3 on.
pub open spec fn kdc_rep_write_3(v: KdcRepView) -> Seq<AsnValue> {
    seq![Tag::<3, Realm>::spec_to_value(v.crealm)] + kdc_rep_write_4(v)
}

/// The children a [`KdcRep`] writes from its field 4 on.
pub open spec fn kdc_rep_write_4(v: KdcRepView) -> Seq<AsnValue> {
    seq![Tag::<4, PrincipalName>::spec_to_value(v.cname)] + kdc_rep_write_5(v)
}

/// The children a [`KdcRep`] writes from its field 5 on.
pub open spec fn kdc_rep_write_5(v: KdcRepView) -> Seq<AsnValue> {
    seq![Tag::<5, Ticket>::spec_to_value(v.ticket)] + kdc_rep_write_6(v)
}

/// The children a [`KdcRep`] writes from its field 6 on.
pub open spec fn kdc_rep_write_6(v: KdcRepView) -> Seq<AsnValue> {
    seq![Tag::<6, EncryptedData>::spec_to_value(v.enc_part)] + kdc_rep_write_7(v)
}

/// The children a [`KdcRep`] writes past its last field: none.
pub open spec fn kdc_rep_write_7(v: KdcRepView) -> Seq<AsnValue> {
    Seq::empty()
}

/// Read the fields of a [`KdcRep`] from field 0 on.
pub open spec fn kdc_rep_read_0(cs: Seq<AsnValue>) -> Option<KdcRepView> {
    if cs.len() > 0 {
        match Tag::<0, Integer>::spec_from_value(cs[0]) {
            Some(f) => kdc_rep_read_1(cs.skip(1), f),
            None => None,
        }
    } else {
        None
    }
}

/// Read the fields of a [`KdcRep`] from field 1 on.
pub open spec fn kdc_rep_read_1(cs: Seq<AsnValue>, f_pvno: u32) -> Option<KdcRepView> {
    if cs.len() > 0 {
        match Tag::<1, Integer>::spec_from_value(cs[0]) {
            Some(f) => kdc_rep_read_2(cs.skip(1), f_pvno, f),
            None => None,
        }
    } else {
        None
    }
}

/// Read the fields of a [`KdcRep`] from field 2 on.
pub open spec fn kdc_rep_read_2(cs: Seq<AsnValue>, f_pvno: u32, f_msg_type: u32) -> Option<KdcRepView> {
    if cs.len() > 0 && has_ctx(cs[0], 2) {
        match Tag::<2, SequenceOf<PaData>>::spec_from_value(cs[0]) {
            Some(f) => kdc_rep_read_3(cs.skip(1), f_pvno, f_msg_type, Some(f)),
            None => None,
        }
    } else {
        kdc_rep_read_3(cs, f_pvno, f_msg_type, None::<Seq<PaDataView>>)
    }
}

/// Read the fields of a [`KdcRep`] from field 3 on.
pub open spec fn kdc_rep_read_3(cs: Seq<AsnValue>, f_pvno: u32, f_msg_type: u32, f_padata: Option<Seq<PaDataView>>) -> Option<KdcRepView> {
    if cs.len() > 0 {
        match Tag::<3, Realm>::spec_from_value(cs[0]) {
            Some(f) => kdc_rep_read_4(cs.skip(1), f_pvno, f_msg_type, f_padata, f),
            None => None,
        }
    } else {
        None
    }
}

/// Read the fields of a [`KdcRep`] from field 4 on.
pub open spec fn kdc_rep_read_4(cs: Seq<AsnValue>, f_pvno: u32, f_msg_type: u32, f_padata: Option<Seq<PaDataView>>, f_crealm: Seq<u8>) -> Option<KdcRepView> {
    if cs.len() > 0 {
        match Tag::<4, PrincipalName>::spec_from_value(cs[0]) {
            Some(f) => kdc_rep_read_5(cs.skip(1), f_pvno, f_msg_type, f_padata, f_crealm, f),
            None => None,
        }
    } else {
        None
    }
}

/// Read the fields of a [`KdcRep`] from field 5 on.
pub open spec fn kdc_rep_read_5(cs: Seq<AsnValue>, f_pvno: u32, f_msg_type: u32, f_padata: Option<Seq<PaDataView>>, f_crealm: Seq<u8>, f_cname: PrincipalNameView) -> Option<KdcRepView> {
    if cs.len() > 0 {
        match Tag::<5, Ticket>::spec_from_value(cs[0]) {
            Some(f) => kdc_rep_read_6(cs.skip(1), f_pvno, f_msg_type, f_padata, f_crealm, f_cname, f),
            None => None,
        }
    } else {
        None
    }
}

/// Read the fields of a [`KdcRep`] from field 6 on.
pub open spec fn kdc_rep_read_6(cs: Seq<AsnValue>, f_pvno: u32, f_msg_type: u32, f_padata: Option<Seq<PaDataView>>, f_crealm: Seq<u8>, f_cname: PrincipalNameView, f_ticket: TicketBodyView) -> Option<KdcRepView> {
    if cs.len() > 0 {
        match Tag::<6, EncryptedData>::spec_from_value(cs[0]) {
            Some(f) => kdc_rep_read_7(cs.skip(1), f_pvno, f_msg_type, f_padata, f_crealm, f_cname, f_ticket, f),
            None => None,
        }
    } else {
        None
    }
}

/// Past the last field of a [`KdcRep`]: the children must be spent.
pub open spec fn kdc_rep_read_7(cs: Seq<AsnValue>, f_pvno: u32, f_msg_type: u32, f_padata: Option<Seq<PaDataView>>, f_crealm: Seq<u8>, f_cname: PrincipalNameView, f_ticket: TicketBodyView, f_enc_part: EncryptedDataView) -> Option<KdcRepView> {
    if cs.len() == 0 {
        Some(KdcRepView {
            pvno: f_pvno,
            msg_type: f_msg_type,
            padata: f_padata,
            crealm: f_crealm,
            cname: f_cname,
            ticket: f_ticket,
            enc_part: f_enc_part,
        })
    } else {
        None
    }
}

impl Asn1Data for KdcRep {
    open spec fn view_wf(v: KdcRepView) -> bool {
        Tag::<0, Integer>::view_wf(v.pvno)
            && Tag::<1, Integer>::view_wf(v.msg_type)
            && (match v.padata {
            Some(x) => Tag::<2, SequenceOf<PaData>>::view_wf(x),
            None => true,
        })
            && Tag::<3, Realm>::view_wf(v.crealm)
            && Tag::<4, PrincipalName>::view_wf(v.cname)
            && Tag::<5, Ticket>::view_wf(v.ticket)
            && Tag::<6, EncryptedData>::view_wf(v.enc_part)
    }

    open spec fn spec_to_value(v: KdcRepView) -> AsnValue {
        AsnValue::Sequence(kdc_rep_write_0(v))
    }

    open spec fn spec_from_value(a: AsnValue) -> Option<KdcRepView> {
        match a {
            AsnValue::Sequence(cs) => kdc_rep_read_0(cs),
            _ => None,
        }
    }

    fn to_value(&self) -> (r: Asn1Value) {
        let ghost v = self.deep_view();
        let mut children: Vec<Asn1Value> = Vec::new();
        let ghost mut gc: Seq<AsnValue> = Seq::empty();
        proof {
            assert(crate::der::view_list(children@) =~= gc);
            lemma_nil_concat(kdc_rep_write_0(v));
            assert(kdc_rep_write_0(v) == gc + kdc_rep_write_0(v));
        }
        let ghost ch_prev0 = children@;
        let ghost gc_prev0 = gc;
        children.push(self.pvno.to_value());
        proof {
            assert(children@.drop_last() =~= ch_prev0);
            gc = gc.push(Tag::<0, Integer>::spec_to_value(self.pvno.deep_view()));
            assert(crate::der::view_list(children@) == gc);
            assert(kdc_rep_write_0(v) == seq![Tag::<0, Integer>::spec_to_value(self.pvno.deep_view())] + kdc_rep_write_1(v));
            lemma_snoc_concat(gc_prev0, Tag::<0, Integer>::spec_to_value(self.pvno.deep_view()), kdc_rep_write_1(v));
            assert(kdc_rep_write_0(v) == gc + kdc_rep_write_1(v));
        }
        let ghost ch_prev1 = children@;
        let ghost gc_prev1 = gc;
        children.push(self.msg_type.to_value());
        proof {
            assert(children@.drop_last() =~= ch_prev1);
            gc = gc.push(Tag::<1, Integer>::spec_to_value(self.msg_type.deep_view()));
            assert(crate::der::view_list(children@) == gc);
            assert(kdc_rep_write_1(v) == seq![Tag::<1, Integer>::spec_to_value(self.msg_type.deep_view())] + kdc_rep_write_2(v));
            lemma_snoc_concat(gc_prev1, Tag::<1, Integer>::spec_to_value(self.msg_type.deep_view()), kdc_rep_write_2(v));
            assert(kdc_rep_write_0(v) == gc + kdc_rep_write_2(v));
        }
        match &self.padata {
            Some(x) => {
                let ghost ch_prev = children@;
                let ghost gc_prev = gc;
                children.push(x.to_value());
                proof {
                    assert(children@.drop_last() =~= ch_prev);
                    gc = gc.push(Tag::<2, SequenceOf<PaData>>::spec_to_value(x.deep_view()));
                    assert(crate::der::view_list(children@) == gc);
                    assert(kdc_rep_write_2(v) == seq![Tag::<2, SequenceOf<PaData>>::spec_to_value(x.deep_view())] + kdc_rep_write_3(v));
                    lemma_snoc_concat(gc_prev, Tag::<2, SequenceOf<PaData>>::spec_to_value(x.deep_view()), kdc_rep_write_3(v));
                    assert(kdc_rep_write_0(v) == gc + kdc_rep_write_3(v));
                }
            },
            None => {
                proof {
                    assert(kdc_rep_write_2(v) == kdc_rep_write_3(v));
                    assert(kdc_rep_write_0(v) == gc + kdc_rep_write_3(v));
                }
            },
        }
        let ghost ch_prev3 = children@;
        let ghost gc_prev3 = gc;
        children.push(self.crealm.to_value());
        proof {
            assert(children@.drop_last() =~= ch_prev3);
            gc = gc.push(Tag::<3, Realm>::spec_to_value(self.crealm.deep_view()));
            assert(crate::der::view_list(children@) == gc);
            assert(kdc_rep_write_3(v) == seq![Tag::<3, Realm>::spec_to_value(self.crealm.deep_view())] + kdc_rep_write_4(v));
            lemma_snoc_concat(gc_prev3, Tag::<3, Realm>::spec_to_value(self.crealm.deep_view()), kdc_rep_write_4(v));
            assert(kdc_rep_write_0(v) == gc + kdc_rep_write_4(v));
        }
        let ghost ch_prev4 = children@;
        let ghost gc_prev4 = gc;
        children.push(self.cname.to_value());
        proof {
            assert(children@.drop_last() =~= ch_prev4);
            gc = gc.push(Tag::<4, PrincipalName>::spec_to_value(self.cname.deep_view()));
            assert(crate::der::view_list(children@) == gc);
            assert(kdc_rep_write_4(v) == seq![Tag::<4, PrincipalName>::spec_to_value(self.cname.deep_view())] + kdc_rep_write_5(v));
            lemma_snoc_concat(gc_prev4, Tag::<4, PrincipalName>::spec_to_value(self.cname.deep_view()), kdc_rep_write_5(v));
            assert(kdc_rep_write_0(v) == gc + kdc_rep_write_5(v));
        }
        let ghost ch_prev5 = children@;
        let ghost gc_prev5 = gc;
        children.push(self.ticket.to_value());
        proof {
            assert(children@.drop_last() =~= ch_prev5);
            gc = gc.push(Tag::<5, Ticket>::spec_to_value(self.ticket.deep_view()));
            assert(crate::der::view_list(children@) == gc);
            assert(kdc_rep_write_5(v) == seq![Tag::<5, Ticket>::spec_to_value(self.ticket.deep_view())] + kdc_rep_write_6(v));
            lemma_snoc_concat(gc_prev5, Tag::<5, Ticket>::spec_to_value(self.ticket.deep_view()), kdc_rep_write_6(v));
            assert(kdc_rep_write_0(v) == gc + kdc_rep_write_6(v));
        }
        let ghost ch_prev6 = children@;
        let ghost gc_prev6 = gc;
        children.push(self.enc_part.to_value());
        proof {
            assert(children@.drop_last() =~= ch_prev6);
            gc = gc.push(Tag::<6, EncryptedData>::spec_to_value(self.enc_part.deep_view()));
            assert(crate::der::view_list(children@) == gc);
            assert(kdc_rep_write_6(v) == seq![Tag::<6, EncryptedData>::spec_to_value(self.enc_part.deep_view())] + kdc_rep_write_7(v));
            lemma_snoc_concat(gc_prev6, Tag::<6, EncryptedData>::spec_to_value(self.enc_part.deep_view()), kdc_rep_write_7(v));
            assert(kdc_rep_write_0(v) == gc + kdc_rep_write_7(v));
        }
        proof {
            assert(kdc_rep_write_7(v) == Seq::<AsnValue>::empty());
            lemma_concat_nil(gc);
            assert(AsnValue::Sequence(gc) == Self::spec_to_value(v));
        }
        Asn1Value::Sequence(children)
    }

    fn from_value(a: &Asn1Value) -> (r: Result<Self, KerlabError>) {
        match a {
            Asn1Value::Sequence(cs) => {
                proof {
                    crate::der::lemma_view_list(cs@);
                }
                let ghost vl = crate::der::view_list(cs@);
                proof {
                    assert(vl.skip(0) =~= vl);
                    assert(Self::spec_from_value(a@) == kdc_rep_read_0(vl.skip(0)));
                }
                let n = cs.len();
                let mut i: usize = 0;
                if i >= n {
                    proof {
                        assert(vl.skip(i as int).len() == 0);
                    }
                    return Err(KerlabError::new(KerlabErrorKind::Parsing, "missing field"));
                }
                proof {
                    assert(vl.skip(i as int)[0] == vl[i as int]);
                    assert(vl[i as int] == cs@[i as int]@);
                }
                let f_pvno = match Tag::<0, Integer>::from_value(&cs[i]) {
                    Ok(x) => x,
                    Err(e) => {
                        return Err(e);
                    },
                };
                proof {
                    lemma_skip_skip(vl, i as int);
                }
                i += 1;
                proof {
                    assert(Self::spec_from_value(a@) == kdc_rep_read_1(vl.skip(i as int), f_pvno.deep_view()));
                }
                if i >= n {
                    proof {
                        assert(vl.skip(i as int).len() == 0);
                    }
                    return Err(KerlabError::new(KerlabErrorKind::Parsing, "missing field"));
                }
                proof {
                    assert(vl.skip(i as int)[0] == vl[i as int]);
                    assert(vl[i as int] == cs@[i as int]@);
                }
                let f_msg_type = match Tag::<1, Integer>::from_value(&cs[i]) {
                    Ok(x) => x,
                    Err(e) => {
                        return Err(e);
                    },
                };
                proof {
                    lemma_skip_skip(vl, i as int);
                }
                i += 1;
                proof {
                    assert(Self::spec_from_value(a@) == kdc_rep_read_2(vl.skip(i as int), f_pvno.deep_view(), f_msg_type.deep_view()));
                }
                let mut f_padata: Option<Tag<2, SequenceOf<PaData>>> = None;
                if i < n && is_ctx(&cs[i], 2) {
                    proof {
                        assert(vl.skip(i as int)[0] == vl[i as int]);
                        assert(vl[i as int] == cs@[i as int]@);
                    }
                    match Tag::<2, SequenceOf<PaData>>::from_value(&cs[i]) {
                        Ok(x) => {
                            proof {
                                lemma_skip_skip(vl, i as int);
                            }
                            f_padata = Some(x);
                            i += 1;
                        },
                        Err(e) => {
                            return Err(e);
                        },
                    }
                } else {
                    proof {
                        if i < n {
                            assert(vl.skip(i as int)[0] == vl[i as int]);
                            assert(vl[i as int] == cs@[i as int]@);
                        }
                    }
                }
                proof {
                    assert(Self::spec_from_value(a@) == kdc_rep_read_3(vl.skip(i as int), f_pvno.deep_view(), f_msg_type.deep_view(), f_padata.deep_view()));
                }
                if i >= n {
                    proof {
                        assert(vl.skip(i as int).len() == 0);
                    }
                    return Err(KerlabError::new(KerlabErrorKind::Parsing, "missing field"));
                }
                proof {
                    assert(vl.skip(i as int)[0] == vl[i as int]);
                    assert(vl[i as int] == cs@[i as int]@);
                }
                let f_crealm = match Tag::<3, Realm>::from_value(&cs[i]) {
                    Ok(x) => x,
                    Err(e) => {
                        return Err(e);
                    },
                };
                proof {
                    lemma_skip_skip(vl, i as int);
                }
                i += 1;
                proof {
                    assert(Self::spec_from_value(a@) == kdc_rep_read_4(vl.skip(i as int), f_pvno.deep_view(), f_msg_type.deep_view(), f_padata.deep_view(), f_crealm.deep_view()));
                }
                if i >= n {
                    proof {
                        assert(vl.skip(i as int).len() == 0);
                    }
                    return Err(KerlabError::new(KerlabErrorKind::Parsing, "missing field"));
                }
                proof {
                    assert(vl.skip(i as int)[0] == vl[i as int]);
                    assert(vl[i as int] == cs@[i as int]@);
                }
                let f_cname = match Tag::<4, PrincipalName>::from_value(&cs[i]) {
                    Ok(x) => x,
                    Err(e) => {
                        return Err(e);
                    },
                };
                proof {
                    lemma_skip_skip(vl, i as int);
                }
                i += 1;
                proof {
                    assert(Self::spec_from_value(a@) == kdc_rep_read_5(vl.skip(i as int), f_pvno.deep_view(), f_msg_type.deep_view(), f_padata.deep_view(), f_crealm.deep_view(), f_cname.deep_view()));
                }
                if i >= n {
                    proof {
                        assert(vl.skip(i as int).len() == 0);
                    }
                    return Err(KerlabError::new(KerlabErrorKind::Parsing, "missing field"));
                }
                proof {
                    assert(vl.skip(i as int)[0] == vl[i as int]);
                    assert(vl[i as int] == cs@[i as int]@);
                }
                let f_ticket = match Tag::<5, Ticket>::from_value(&cs[i]) {
                    Ok(x) => x,
                    Err(e) => {
                        return Err(e);
                    },
                };
                proof {
                    lemma_skip_skip(vl, i as int);
                }
                i += 1;
                proof {
                    assert(Self::spec_from_value(a@) == kdc_rep_read_6(vl.skip(i as int), f_pvno.deep_view(), f_msg_type.deep_view(), f_padata.deep_view(), f_crealm.deep_view(), f_cname.deep_view(), f_ticket.deep_view()));
                }
                if i >= n {
                    proof {
                        assert(vl.skip(i as int).len() == 0);
                    }
                    return Err(KerlabError::new(KerlabErrorKind::Parsing, "missing field"));
                }
                proof {
                    assert(vl.skip(i as int)[0] == vl[i as int]);
                    assert(vl[i as int] == cs@[i as int]@);
                }
                let f_enc_part = match Tag::<6, EncryptedData>::from_value(&cs[i]) {
                    Ok(x) => x,
                    Err(e) => {
                        return Err(e);
                    },
                };
                proof {
                    lemma_skip_skip(vl, i as int);
                }
                i += 1;
                proof {
                    assert(Self::spec_from_value(a@) == kdc_rep_read_7(vl.skip(i as int), f_pvno.deep_view(), f_msg_type.deep_view(), f_padata.deep_view(), f_crealm.deep_view(), f_cname.deep_view(), f_ticket.deep_view(), f_enc_part.deep_view()));
                }
                if i != n {
                    return Err(KerlabError::new(KerlabErrorKind::Parsing, "unexpected extra field"));
                }
                proof {
                    assert(vl.skip(i as int).len() == 0);
                }
                Ok(KdcRep {
                    pvno: f_pvno,
                    msg_type: f_msg_type,
                    padata: f_padata,
                    crealm: f_crealm,
                    cname: f_cname,
                    ticket: f_ticket,
                    enc_part: f_enc_part,
                })
            },
            _ => Err(KerlabError::new(KerlabErrorKind::Parsing, "expected a sequence")),
        }
    }

    proof fn lemma_round_trip(v: KdcRepView) {
        kdc_rep_rt_0(v);
        assert(Self::spec_from_value(Self::spec_to_value(v)) == Some(v));
    }
}

/// Reading no children past the last field yields the view back.
proof fn kdc_rep_rt_7(v: KdcRepView)
    requires
        KdcRep::view_wf(v),
    ensures
        kdc_rep_read_7(kdc_rep_write_7(v), v.pvno, v.msg_type, v.padata, v.crealm, v.cname, v.ticket, v.enc_part) == Some(v),
        forall|j: int| 0 <= j < kdc_rep_write_7(v).len() ==> value_wf(#[trigger] kdc_rep_write_7(v)[j]),
{
    assert(kdc_rep_write_7(v).len() == 0);
    assert((KdcRepView { pvno: v.pvno, msg_type: v.msg_type, padata: v.padata, crealm: v.crealm, cname: v.cname, ticket: v.ticket, enc_part: v.enc_part }) =~= v);
}

/// Reading the children written from field 6 on yields the view back.
proof fn kdc_rep_rt_6(v: KdcRepView)
    requires
        KdcRep::view_wf(v),
    ensures
        kdc_rep_read_6(kdc_rep_write_6(v), v.pvno, v.msg_type, v.padata, v.crealm, v.cname, v.ticket) == Some(v),
        forall|j: int| 0 <= j < kdc_rep_write_6(v).len() ==> value_wf(#[trigger] kdc_rep_write_6(v)[j]),
{
    kdc_rep_rt_7(v);
    Tag::<6, EncryptedData>::lemma_round_trip(v.enc_part);
    assert(kdc_rep_write_6(v) == seq![Tag::<6, EncryptedData>::spec_to_value(v.enc_part)] + kdc_rep_write_7(v));
    assert(kdc_rep_write_6(v)[0] == Tag::<6, EncryptedData>::spec_to_value(v.enc_part));
    assert(has_ctx(kdc_rep_write_6(v)[0], 6));
    lemma_cons_skip(Tag::<6, EncryptedData>::spec_to_value(v.enc_part), kdc_rep_write_7(v));
    assert(kdc_rep_read_6(kdc_rep_write_6(v), v.pvno, v.msg_type, v.padata, v.crealm, v.cname, v.ticket) == kdc_rep_read_7(kdc_rep_write_7(v), v.pvno, v.msg_type, v.padata, v.crealm, v.cname, v.ticket, v.enc_part));
    assert forall|j: int| 0 <= j < kdc_rep_write_6(v).len() implies value_wf(#[trigger] kdc_rep_write_6(v)[j]) by {
        if j >= 1 {
            assert(kdc_rep_write_6(v)[j] == kdc_rep_write_7(v)[j - 1]);
        }
    }
}

/// Reading the children written from field 5 on yields the view back.
proof fn kdc_rep_rt_5(v: KdcRepView)
    requires
        KdcRep::view_wf(v),
    ensures
        kdc_rep_read_5(kdc_rep_write_5(v), v.pvno, v.msg_type, v.padata, v.crealm, v.cname) == Some(v),
        forall|j: int| 0 <= j < kdc_rep_write_5(v).len() ==> value_wf(#[trigger] kdc_rep_write_5(v)[j]),
{
    kdc_rep_rt_6(v);
    Tag::<5, Ticket>::lemma_round_trip(v.ticket);
    assert(kdc_rep_write_5(v) == seq![Tag::<5, Ticket>::spec_to_value(v.ticket)] + kdc_rep_write_6(v));
    assert(kdc_rep_write_5(v)[0] == Tag::<5, Ticket>::spec_to_value(v.ticket));
    assert(has_ctx(kdc_rep_write_5(v)[0], 5));
    lemma_cons_skip(Tag::<5, Ticket>::spec_to_value(v.ticket), kdc_rep_write_6(v));
    assert(kdc_rep_read_5(kdc_rep_write_5(v), v.pvno, v.msg_type, v.padata, v.crealm, v.cname) == kdc_rep_read_6(kdc_rep_write_6(v), v.pvno, v.msg_type, v.padata, v.crealm, v.cname, v.ticket));
    assert forall|j: int| 0 <= j < kdc_rep_write_5(v).len() implies value_wf(#[trigger] kdc_rep_write_5(v)[j]) by {
        if j >= 1 {
            assert(kdc_rep_write_5(v)[j] == kdc_rep_write_6(v)[j - 1]);
        }
    }
}

/// Reading the children written from field 4 on yields the view back.
proof fn kdc_rep_rt_4(v: KdcRepView)
    requires
        KdcRep::view_wf(v),
    ensures
        kdc_rep_read_4(kdc_rep_write_4(v), v.pvno, v.msg_type, v.padata, v.crealm) == Some(v),
        forall|j: int| 0 <= j < kdc_rep_write_4(v).len() ==> value_wf(#[trigger] kdc_rep_write_4(v)[j]),
{
    kdc_rep_rt_5(v);
    Tag::<4, PrincipalName>::lemma_round_trip(v.cname);
    assert(kdc_rep_write_4(v) == seq![Tag::<4, PrincipalName>::spec_to_value(v.cname)] + kdc_rep_write_5(v));
    assert(kdc_rep_write_4(v)[0] == Tag::<4, PrincipalName>::spec_to_value(v.cname));
    assert(has_ctx(kdc_rep_write_4(v)[0], 4));
    lemma_cons_skip(Tag::<4, PrincipalName>::spec_to_value(v.cname), kdc_rep_write_5(v));
    assert(kdc_rep_read_4(kdc_rep_write_4(v), v.pvno, v.msg_type, v.padata, v.crealm) == kdc_rep_read_5(kdc_rep_write_5(v), v.pvno, v.msg_type, v.padata, v.crealm, v.cname));
    assert forall|j: int| 0 <= j < kdc_rep_write_4(v).len() implies value_wf(#[trigger] kdc_rep_write_4(v)[j]) by {
        if j >= 1 {
            assert(kdc_rep_write_4(v)[j] == kdc_rep_write_5(v)[j - 1]);
        }
    }
}

/// Reading the children written from field 3 on yields the view back.
proof fn kdc_rep_rt_3(v: KdcRepView)
    requires
        KdcRep::view_wf(v),
    ensures
        kdc_rep_read_3(kdc_rep_write_3(v), v.pvno, v.msg_type, v.padata) == Some(v),
        forall|j: int| 0 <= j < kdc_rep_write_3(v).len() ==> value_wf(#[trigger] kdc_rep_write_3(v)[j]),
{
    kdc_rep_rt_4(v);
    Tag::<3, Realm>::lemma_round_trip(v.crealm);
    assert(kdc_rep_write_3(v) == seq![Tag::<3, Realm>::spec_to_value(v.crealm)] + kdc_rep_write_4(v));
    assert(kdc_rep_write_3(v)[0] == Tag::<3, Realm>::spec_to_value(v.crealm));
    assert(has_ctx(kdc_rep_write_3(v)[0], 3));
    lemma_cons_skip(Tag::<3, Realm>::spec_to_value(v.crealm), kdc_rep_write_4(v));
    assert(kdc_rep_read_3(kdc_rep_write_3(v), v.pvno, v.msg_type, v.padata) == kdc_rep_read_4(kdc_rep_write_4(v), v.pvno, v.msg_type, v.padata, v.crealm));
    assert forall|j: int| 0 <= j < kdc_rep_write_3(v).len() implies value_wf(#[trigger] kdc_rep_write_3(v)[j]) by {
        if j >= 1 {
            assert(kdc_rep_write_3(v)[j] == kdc_rep_write_4(v)[j - 1]);
        }
    }
}

/// Reading the children written from field 2 on yields the view back.
proof fn kdc_rep_rt_2(v: KdcRepView)
    requires
        KdcRep::view_wf(v),
    ensures
        kdc_rep_read_2(kdc_rep_write_2(v), v.pvno, v.msg_type) == Some(v),
        forall|j: int| 0 <= j < kdc_rep_write_2(v).len() ==> value_wf(#[trigger] kdc_rep_write_2(v)[j]),
{
    kdc_rep_rt_3(v);
    match v.padata {
        Some(x) => {
            Tag::<2, SequenceOf<PaData>>::lemma_round_trip(x);
            assert(kdc_rep_write_2(v) == seq![Tag::<2, SequenceOf<PaData>>::spec_to_value(x)] + kdc_rep_write_3(v));
            assert(kdc_rep_write_2(v)[0] == Tag::<2, SequenceOf<PaData>>::spec_to_value(x));
            assert(has_ctx(kdc_rep_write_2(v)[0], 2));
            lemma_cons_skip(Tag::<2, SequenceOf<PaData>>::spec_to_value(x), kdc_rep_write_3(v));
            assert(kdc_rep_read_2(kdc_rep_write_2(v), v.pvno, v.msg_type) == kdc_rep_read_3(kdc_rep_write_3(v), v.pvno, v.msg_type, Some(x)));
            assert forall|j: int| 0 <= j < kdc_rep_write_2(v).len() implies value_wf(#[trigger] kdc_rep_write_2(v)[j]) by {
                if j >= 1 {
                    assert(kdc_rep_write_2(v)[j] == kdc_rep_write_3(v)[j - 1]);
                }
            }
        },
        None => {
            assert(kdc_rep_write_2(v) == kdc_rep_write_3(v));
            if kdc_rep_write_3(v).len() > 0 {
                assert(!has_ctx(kdc_rep_write_3(v)[0], 2));
            }
            assert(kdc_rep_read_2(kdc_rep_write_2(v), v.pvno, v.msg_type) == kdc_rep_read_3(kdc_rep_write_3(v), v.pvno, v.msg_type, None::<Seq<PaDataView>>));
        },
    }
}

/// Reading the children written from field 1 on yields the view back.
proof fn kdc_rep_rt_1(v: KdcRepView)
    requires
        KdcRep::view_wf(v),
    ensures
        kdc_rep_read_1(kdc_rep_write_1(v), v.pvno) == Some(v),
        forall|j: int| 0 <= j < kdc_rep_write_1(v).len() ==> value_wf(#[trigger] kdc_rep_write_1(v)[j]),
{
    kdc_rep_rt_2(v);
    Tag::<1, Integer>::lemma_round_trip(v.msg_type);
    assert(kdc_rep_write_1(v) == seq![Tag::<1, Integer>::spec_to_value(v.msg_type)] + kdc_rep_write_2(v));
    assert(kdc_rep_write_1(v)[0] == Tag::<1, Integer>::spec_to_value(v.msg_type));
    assert(has_ctx(kdc_rep_write_1(v)[0], 1));
    lemma_cons_skip(Tag::<1, Integer>::spec_to_value(v.msg_type), kdc_rep_write_2(v));
    assert(kdc_rep_read_1(kdc_rep_write_1(v), v.pvno) == kdc_rep_read_2(kdc_rep_write_2(v), v.pvno, v.msg_type));
    assert forall|j: int| 0 <= j < kdc_rep_write_1(v).len() implies value_wf(#[trigger] kdc_rep_write_1(v)[j]) by {
        if j >= 1 {
            assert(kdc_rep_write_1(v)[j] == kdc_rep_write_2(v)[j - 1]);
        }
    }
}

/// Reading the children written from field 0 on yields the view back.
proof fn kdc_rep_rt_0(v: KdcRepView)
    requires
        KdcRep::view_wf(v),
    ensures
        kdc_rep_read_0(kdc_rep_write_0(v)) == Some(v),
        forall|j: int| 0 <= j < kdc_rep_write_0(v).len() ==> value_wf(#[trigger] kdc_rep_write_0(v)[j]),
{
    kdc_rep_rt_1(v);
    Tag::<0, Integer>::lemma_round_trip(v.pvno);
    assert(kdc_rep_write_0(v) == seq![Tag::<0, Integer>::spec_to_value(v.pvno)] + kdc_rep_write_1(v));
    assert(kdc_rep_write_0(v)[0] == Tag::<0, Integer>::spec_to_value(v.pvno));
    assert(has_ctx(kdc_rep_write_0(v)[0], 0));
    lemma_cons_skip(Tag::<0, Integer>::spec_to_value(v.pvno), kdc_rep_write_1(v));
    assert(kdc_rep_read_0(kdc_rep_write_0(v)) == kdc_rep_read_1(kdc_rep_write_1(v), v.pvno));
    assert forall|j: int| 0 <= j < kdc_rep_write_0(v).len() implies value_wf(#[trigger] kdc_rep_write_0(v)[j]) by {
        if j >= 1 {
            assert(kdc_rep_write_0(v)[j] == kdc_rep_write_1(v)[j - 1]);
        }
    }
}

/// The decrypted part of a KDC reply (RFC 1510 section 5.4.2).
#[derive(Debug, Clone, PartialEq, Default)]
pub struct EncKDCRepPart {
    pub key: Tag<0, EncryptionKey>,
    pub last_req: Tag<1, LastReq>,
    pub nonce: Tag<2, Integer>,
    pub key_expiration: Option<Tag<3, KerberosTime>>,
    pub flags: Tag<4, TicketFlags>,
    pub authtime: Tag<5, KerberosTime>,
    pub starttime: Option<Tag<6, KerberosTime>>,
    pub endtime: Tag<7, KerberosTime>,
    pub renew_till: Option<Tag<8, KerberosTime>>,
    pub srealm: Tag<9, Realm>,
    pub sname: Tag<10, PrincipalName>,
    pub caddr: Option<Tag<11, HostAddresses>>,
}

/// The deep view of [`EncKDCRepPart`].
#[verifier::ext_equal]
pub struct EncKDCRepPartView {
    pub key: EncryptionKeyView,
    pub last_req: Seq<LastReqBodyView>,
    pub nonce: u32,
    pub key_expiration: Option<GeneralizedTime>,
    pub flags: BitStringView,
    pub authtime: GeneralizedTime,
    pub starttime: Option<GeneralizedTime>,
    pub endtime: GeneralizedTime,
    pub renew_till: Option<GeneralizedTime>,
    pub srealm: Seq<u8>,
    pub sname: PrincipalNameView,
    pub caddr: Option<Seq<HostAddressView>>,
}

impl DeepView for EncKDCRepPart {
    type V = EncKDCRepPartView;

    open spec fn deep_view(&self) -> EncKDCRepPartView {
        EncKDCRepPartView {
            key: self.key.deep_view(),
            last_req: self.last_req.deep_view(),
            nonce: self.nonce.deep_view(),
            key_expiration: self.key_expiration.deep_view(),
            flags: self.flags.deep_view(),
            authtime: self.authtime.deep_view(),
            starttime: self.starttime.deep_view(),
            endtime: self.endtime.deep_view(),
            renew_till: self.renew_till.deep_view(),
            srealm: self.srealm.deep_view(),
            sname: self.sname.deep_view(),
            caddr: self.caddr.deep_view(),
        }
    }
}

/// The children a [`EncKDCRepPart`] writes from its field 0 on.
pub open spec fn enc_k_d_c_rep_part_write_0(v: EncKDCRepPartView) -> Seq<AsnValue> {
    seq![Tag::<0, EncryptionKey>::spec_to_value(v.key)] + enc_k_d_c_rep_part_write_1(v)
}

/// The children a [`EncKDCRepPart`] writes from its field 1 on.
pub open spec fn enc_k_d_c_rep_part_write_1(v: EncKDCRepPartView) -> Seq<AsnValue> {
    seq![Tag::<1, LastReq>::spec_to_value(v.last_req)] + enc_k_d_c_rep_part_write_2(v)
}

/// The children a [`EncKDCRepPart`] writes from its field 2 on.
pub open spec fn enc_k_d_c_rep_part_write_2(v: EncKDCRepPartView) -> Seq<AsnValue> {
    seq![Tag::<2, Integer>::spec_to_value(v.nonce)] + enc_k_d_c_rep_part_write_3(v)
}

/// The children a [`EncKDCRepPart`] writes from its field 3 on.
pub open spec fn enc_k_d_c_rep_part_write_3(v: EncKDCRepPartView) -> Seq<AsnValue> {
    match v.key_expiration {
        Some(x) => seq![Tag::<3, KerberosTime>::spec_to_value(x)] + enc_k_d_c_rep_part_write_4(v),
        None => enc_k_d_c_rep_part_write_4(v),
    }
}

/// The children a [`EncKDCRepPart`] writes from its field 4 on.
pub open spec fn enc_k_d_c_rep_part_write_4(v: EncKDCRepPartView) -> Seq<AsnValue> {
    seq![Tag::<4, TicketFlags>::spec_to_value(v.flags)] + enc_k_d_c_rep_part_write_5(v)
}

/// The children a [`EncKDCRepPart`] writes from its field 5 on.
pub open spec fn enc_k_d_c_rep_part_write_5(v: EncKDCRepPartView) -> Seq<AsnValue> {
    seq![Tag::<5, KerberosTime>::spec_to_value(v.authtime)] + enc_k_d_c_rep_part_write_6(v)
}

/// The children a [`EncKDCRepPart`] writes from its field 6 on.
pub open spec fn enc_k_d_c_rep_part_write_6(v: EncKDCRepPartView) -> Seq<AsnValue> {
    match v.starttime {
        Some(x) => seq![Tag::<6, KerberosTime>::spec_to_value(x)] + enc_k_d_c_rep_part_write_7(v),
        None => enc_k_d_c_rep_part_write_7(v),
    }
}

/// The children a [`EncKDCRepPart`] writes from its field 7 on.
pub open spec fn enc_k_d_c_rep_part_write_7(v: EncKDCRepPartView) -> Seq<AsnValue> {
    seq![Tag::<7, KerberosTime>::spec_to_value(v.endtime)] + enc_k_d_c_rep_part_write_8(v)
}

/// The children a [`EncKDCRepPart`] writes from its field 8 on.
pub open spec fn enc_k_d_c_rep_part_write_8(v: EncKDCRepPartView) -> Seq<AsnValue> {
    match v.renew_till {
        Some(x) => seq![Tag::<8, KerberosTime>::spec_to_value(x)] + enc_k_d_c_rep_part_write_9(v),
        None => enc_k_d_c_rep_part_write_9(v),
    }
}

/// The children a [`EncKDCRepPart`] writes from its field 9 on.
pub open spec fn enc_k_d_c_rep_part_write_9(v: EncKDCRepPartView) -> Seq<AsnValue> {
    seq![Tag::<9, Realm>::spec_to_value(v.srealm)] + enc_k_d_c_rep_part_write_10(v)
}

/// The children a [`EncKDCRepPart`] writes from its field 10 on.
pub open spec fn enc_k_d_c_rep_part_write_10(v: EncKDCRepPartView) -> Seq<AsnValue> {
    seq![Tag::<10, PrincipalName>::spec_to_value(v.sname)] + enc_k_d_c_rep_part_write_11(v)
}

/// The children a [`EncKDCRepPart`] writes from its field 11 on.
pub open spec fn enc_k_d_c_rep_part_write_11(v: EncKDCRepPartView) -> Seq<AsnValue> {
    match v.caddr {
        Some(x) => seq![Tag::<11, HostAddresses>::spec_to_value(x)] + enc_k_d_c_rep_part_write_12(v),
        None => enc_k_d_c_rep_part_write_12(v),
    }
}

/// The children a [`EncKDCRepPart`] writes past its last field: none.
pub open spec fn enc_k_d_c_rep_part_write_12(v: EncKDCRepPartView) -> Seq<AsnValue> {
    Seq::empty()
}

/// Read the fields of a [`EncKDCRepPart`] from field 0 on.
pub open spec fn enc_k_d_c_rep_part_read_0(cs: Seq<AsnValue>) -> Option<EncKDCRepPartView> {
    if cs.len() > 0 {
        match Tag::<0, EncryptionKey>::spec_from_value(cs[0]) {
            Some(f) => enc_k_d_c_rep_part_read_1(cs.skip(1), f),
            None => None,
        }
    } else {
        None
    }
}

/// Read the fields of a [`EncKDCRepPart`] from field 1 on.
pub open spec fn enc_k_d_c_rep_part_read_1(cs: Seq<AsnValue>, f_key: EncryptionKeyView) -> Option<EncKDCRepPartView> {
    if cs.len() > 0 {
        match Tag::<1, LastReq>::spec_from_value(cs[0]) {
            Some(f) => enc_k_d_c_rep_part_read_2(cs.skip(1), f_key, f),
            None => None,
        }
    } else {
        None
    }
}

/// Read the fields of a [`EncKDCRepPart`] from field 2 on.
pub open spec fn enc_k_d_c_rep_part_read_2(cs: Seq<AsnValue>, f_key: EncryptionKeyView, f_last_req: Seq<LastReqBodyView>) -> Option<EncKDCRepPartView> {
    if cs.len() > 0 {
        match Tag::<2, Integer>::spec_from_value(cs[0]) {
            Some(f) => enc_k_d_c_rep_part_read_3(cs.skip(1), f_key, f_last_req, f),
            None => None,
        }
    } else {
        None
    }
}

/// Read the fields of a [`EncKDCRepPart`] from field 3 on.
pub open spec fn enc_k_d_c_rep_part_read_3(cs: Seq<AsnValue>, f_key: EncryptionKeyView, f_last_req: Seq<LastReqBodyView>, f_nonce: u32) -> Option<EncKDCRepPartView> {
    if cs.len() > 0 && has_ctx(cs[0], 3) {
        match Tag::<3, KerberosTime>::spec_from_value(cs[0]) {
            Some(f) => enc_k_d_c_rep_part_read_4(cs.skip(1), f_key, f_last_req, f_nonce, Some(f)),
            None => None,
        }
    } else {
        enc_k_d_c_rep_part_read_4(cs, f_key, f_last_req, f_nonce, None::<GeneralizedTime>)
    }
}

/// Read the fields of a [`EncKDCRepPart`] from field 4 on.
pub open spec fn enc_k_d_c_rep_part_read_4(cs: Seq<AsnValue>, f_key: EncryptionKeyView, f_last_req: Seq<LastReqBodyView>, f_nonce: u32, f_key_expiration: Option<GeneralizedTime>) -> Option<EncKDCRepPartView> {
    if cs.len() > 0 {
        match Tag::<4, TicketFlags>::spec_from_value(cs[0]) {
            Some(f) => enc_k_d_c_rep_part_read_5(cs.skip(1), f_key, f_last_req, f_nonce, f_key_expiration, f),
            None => None,
        }
    } else {
        None
    }
}

/// Read the fields of a [`EncKDCRepPart`] from field 5 on.
pub open spec fn enc_k_d_c_rep_part_read_5(cs: Seq<AsnValue>, f_key: EncryptionKeyView, f_last_req: Seq<LastReqBodyView>, f_nonce: u32, f_key_expiration: Option<GeneralizedTime>, f_flags: BitStringView) -> Option<EncKDCRepPartView> {
    if cs.len() > 0 {
        match Tag::<5, KerberosTime>::spec_from_value(cs[0]) {
            Some(f) => enc_k_d_c_rep_part_read_6(cs.skip(1), f_key, f_last_req, f_nonce, f_key_expiration, f_flags, f),
            None => None,
        }
    } else {
        None
    }
}

/// Read the fields of a [`EncKDCRepPart`] from field 6 on.
pub open spec fn enc_k_d_c_rep_part_read_6(cs: Seq<AsnValue>, f_key: EncryptionKeyView, f_last_req: Seq<LastReqBodyView>, f_nonce: u32, f_key_expiration: Option<GeneralizedTime>, f_flags: BitStringView, f_authtime: GeneralizedTime) -> Option<EncKDCRepPartView> {
    if cs.len() > 0 && has_ctx(cs[0], 6) {
        match Tag::<6, KerberosTime>::spec_from_value(cs[0]) {
            Some(f) => enc_k_d_c_rep_part_read_7(cs.skip(1), f_key, f_last_req, f_nonce, f_key_expiration, f_flags, f_authtime, Some(f)),
            None => None,
        }
    } else {
        enc_k_d_c_rep_part_read_7(cs, f_key, f_last_req, f_nonce, f_key_expiration, f_flags, f_authtime, None::<GeneralizedTime>)
    }
}

/// Read the fields of a [`EncKDCRepPart`] from field 7 on.
pub open spec fn enc_k_d_c_rep_part_read_7(cs: Seq<AsnValue>, f_key: EncryptionKeyView, f_last_req: Seq<LastReqBodyView>, f_nonce: u32, f_key_expiration: Option<GeneralizedTime>, f_flags: BitStringView, f_authtime: GeneralizedTime, f_starttime: Option<GeneralizedTime>) -> Option<EncKDCRepPartView> {
    if cs.len() > 0 {
        match Tag::<7, KerberosTime>::spec_from_value(cs[0]) {
            Some(f) => enc_k_d_c_rep_part_read_8(cs.skip(1), f_key, f_last_req, f_nonce, f_key_expiration, f_flags, f_authtime, f_starttime, f),
            None => None,
        }
    } else {
        None
    }
}

/// Read the fields of a [`EncKDCRepPart`] from field 8 on.
pub open spec fn enc_k_d_c_rep_part_read_8(cs: Seq<AsnValue>, f_key: EncryptionKeyView, f_last_req: Seq<LastReqBodyView>, f_nonce: u32, f_key_expiration: Option<GeneralizedTime>, f_flags: BitStringView, f_authtime: GeneralizedTime, f_starttime: Option<GeneralizedTime>, f_endtime: GeneralizedTime) -> Option<EncKDCRepPartView> {
    if cs.len() > 0 && has_ctx(cs[0], 8) {
        match Tag::<8, KerberosTime>::spec_from_value(cs[0]) {
            Some(f) => enc_k_d_c_rep_part_read_9(cs.skip(1), f_key, f_last_req, f_nonce, f_key_expiration, f_flags, f_authtime, f_starttime, f_endtime, Some(f)),
            None => None,
        }
    } else {
        enc_k_d_c_rep_part_read_9(cs, f_key, f_last_req, f_nonce, f_key_expiration, f_flags, f_authtime, f_starttime, f_endtime, None::<GeneralizedTime>)
    }
}

/// Read the fields of a [`EncKDCRepPart`] from field 9 on.
pub open spec fn enc_k_d_c_rep_part_read_9(cs: Seq<AsnValue>, f_key: EncryptionKeyView, f_last_req: Seq<LastReqBodyView>, f_nonce: u32, f_key_expiration: Option<GeneralizedTime>, f_flags: BitStringView, f_authtime: GeneralizedTime, f_starttime: Option<GeneralizedTime>, f_endtime: GeneralizedTime, f_renew_till: Option<GeneralizedTime>) -> Option<EncKDCRepPartView> {
    if cs.len() > 0 {
        match Tag::<9, Realm>::spec_from_value(cs[0]) {
            Some(f) => enc_k_d_c_rep_part_read_10(cs.skip(1), f_key, f_last_req, f_nonce, f_key_expiration, f_flags, f_authtime, f_starttime, f_endtime, f_renew_till, f),
            None => None,
        }
    } else {
        None
    }
}

/// Read the fields of a [`EncKDCRepPart`] from field 10 on.
pub open spec fn enc_k_d_c_rep_part_read_10(cs: Seq<AsnValue>, f_key: EncryptionKeyView, f_last_req: Seq<LastReqBodyView>, f_nonce: u32, f_key_expiration: Option<GeneralizedTime>, f_flags: BitStringView, f_authtime: GeneralizedTime, f_starttime: Option<GeneralizedTime>, f_endtime: GeneralizedTime, f_renew_till: Option<GeneralizedTime>, f_srealm: Seq<u8>) -> Option<EncKDCRepPartView> {
    if cs.len() > 0 {
        match Tag::<10, PrincipalName>::spec_from_value(cs[0]) {
            Some(f) => enc_k_d_c_rep_part_read_11(cs.skip(1), f_key, f_last_req, f_nonce, f_key_expiration, f_flags, f_authtime, f_starttime, f_endtime, f_renew_till, f_srealm, f),
            None => None,
        }
    } else {
        None
    }
}

/// Read the fields of a [`EncKDCRepPart`] from field 11 on.
pub open spec fn enc_k_d_c_rep_part_read_11(cs: Seq<AsnValue>, f_key: EncryptionKeyView, f_last_req: Seq<LastReqBodyView>, f_nonce: u32, f_key_expiration: Option<GeneralizedTime>, f_flags: BitStringView, f_authtime: GeneralizedTime, f_starttime: Option<GeneralizedTime>, f_endtime: GeneralizedTime, f_renew_till: Option<GeneralizedTime>, f_srealm: Seq<u8>, f_sname: PrincipalNameView) -> Option<EncKDCRepPartView> {
    if cs.len() > 0 && has_ctx(cs[0], 11) {
        match Tag::<11, HostAddresses>::spec_from_value(cs[0]) {
            Some(f) => enc_k_d_c_rep_part_read_12(cs.skip(1), f_key, f_last_req, f_nonce, f_key_expiration, f_flags, f_authtime, f_starttime, f_endtime, f_renew_till, f_srealm, f_sname, Some(f)),
            None => None,
        }
    } else {
        enc_k_d_c_rep_part_read_12(cs, f_key, f_last_req, f_nonce, f_key_expiration, f_flags, f_authtime, f_starttime, f_endtime, f_renew_till, f_srealm, f_sname, None::<Seq<HostAddressView>>)
    }
}

/// Past the last field of a [`EncKDCRepPart`]: the children must be spent.
pub open spec fn enc_k_d_c_rep_part_read_12(cs: Seq<AsnValue>, f_key: EncryptionKeyView, f_last_req: Seq<LastReqBodyView>, f_nonce: u32, f_key_expiration: Option<GeneralizedTime>, f_flags: BitStringView, f_authtime: GeneralizedTime, f_starttime: Option<GeneralizedTime>, f_endtime: GeneralizedTime, f_renew_till: Option<GeneralizedTime>, f_srealm: Seq<u8>, f_sname: PrincipalNameView, f_caddr: Option<Seq<HostAddressView>>) -> Option<EncKDCRepPartView> {
    if cs.len() == 0 {
        Some(EncKDCRepPartView {
            key: f_key,
            last_req: f_last_req,
            nonce: f_nonce,
            key_expiration: f_key_expiration,
            flags: f_flags,
            authtime: f_authtime,
            starttime: f_starttime,
            endtime: f_endtime,
            renew_till: f_renew_till,
            srealm: f_srealm,
            sname: f_sname,
            caddr: f_caddr,
        })
    } else {
        None
    }
}

impl Asn1Data for EncKDCRepPart {
    open spec fn view_wf(v: EncKDCRepPartView) -> bool {
        Tag::<0, EncryptionKey>::view_wf(v.key)
            && Tag::<1, LastReq>::view_wf(v.last_req)
            && Tag::<2, Integer>::view_wf(v.nonce)
            && (match v.key_expiration {
            Some(x) => Tag::<3, KerberosTime>::view_wf(x),
            None => true,
        })
            && Tag::<4, TicketFlags>::view_wf(v.flags)
            && Tag::<5, KerberosTime>::view_wf(v.authtime)
            && (match v.starttime {
            Some(x) => Tag::<6, KerberosTime>::view_wf(x),
            None => true,
        })
            && Tag::<7, KerberosTime>::view_wf(v.endtime)
            && (match v.renew_till {
            Some(x) => Tag::<8, KerberosTime>::view_wf(x),
            None => true,
        })
            && Tag::<9, Realm>::view_wf(v.srealm)
            && Tag::<10, PrincipalName>::view_wf(v.sname)
            && (match v.caddr {
            Some(x) => Tag::<11, HostAddresses>::view_wf(x),
            None => true,
        })
    }

    open spec fn spec_to_value(v: EncKDCRepPartView) -> AsnValue {
        AsnValue::Sequence(enc_k_d_c_rep_part_write_0(v))
    }

    open spec fn spec_from_value(a: AsnValue) -> Option<EncKDCRepPartView> {
        match a {
            AsnValue::Sequence(cs) => enc_k_d_c_rep_part_read_0(cs),
            _ => None,
        }
    }

    #[verifier::rlimit(100)]
    fn to_value(&self) -> (r: Asn1Value) {
        let ghost v = self.deep_view();
        let mut children: Vec<Asn1Value> = Vec::new();
        let ghost mut gc: Seq<AsnValue> = Seq::empty();
        proof {
            assert(crate::der::view_list(children@) =~= gc);
            lemma_nil_concat(enc_k_d_c_rep_part_write_0(v));
            assert(enc_k_d_c_rep_part_write_0(v) == gc + enc_k_d_c_rep_part_write_0(v));
        }
        let ghost ch_prev0 = children@;
        let ghost gc_prev0 = gc;
        children.push(self.key.to_value());
        proof {
            assert(children@.drop_last() =~= ch_prev0);
            gc = gc.push(Tag::<0, EncryptionKey>::spec_to_value(self.key.deep_view()));
            assert(crate::der::view_list(children@) == gc);
            assert(enc_k_d_c_rep_part_write_0(v) == seq![Tag::<0, EncryptionKey>::spec_to_value(self.key.deep_view())] + enc_k_d_c_rep_part_write_1(v));
            lemma_snoc_concat(gc_prev0, Tag::<0, EncryptionKey>::spec_to_value(self.key.deep_view()), enc_k_d_c_rep_part_write_1(v));
            assert(enc_k_d_c_rep_part_write_0(v) == gc + enc_k_d_c_rep_part_write_1(v));
        }
        let ghost ch_prev1 = children@;
        let ghost gc_prev1 = gc;
        children.push(self.last_req.to_value());
        proof {
            assert(children@.drop_last() =~= ch_prev1);
            gc = gc.push(Tag::<1, LastReq>::spec_to_value(self.last_req.deep_view()));
            assert(crate::der::view_list(children@) == gc);
            assert(enc_k_d_c_rep_part_write_1(v) == seq![Tag::<1, LastReq>::spec_to_value(self.last_req.deep_view())] + enc_k_d_c_rep_part_write_2(v));
            lemma_snoc_concat(gc_prev1, Tag::<1, LastReq>::spec_to_value(self.last_req.deep_view()), enc_k_d_c_rep_part_write_2(v));
            assert(enc_k_d_c_rep_part_write_0(v) == gc + enc_k_d_c_rep_part_write_2(v));
        }
        let ghost ch_prev2 = children@;
        let ghost gc_prev2 = gc;
        children.push(self.nonce.to_value());
        proof {
            assert(children@.drop_last() =~= ch_prev2);
            gc = gc.push(Tag::<2, Integer>::spec_to_value(self.nonce.deep_view()));
            assert(crate::der::view_list(children@) == gc);
            assert(enc_k_d_c_rep_part_write_2(v) == seq![Tag::<2, Integer>::spec_to_value(self.nonce.deep_view())] + enc_k_d_c_rep_part_write_3(v));
            lemma_snoc_concat(gc_prev2, Tag::<2, Integer>::spec_to_value(self.nonce.deep_view()), enc_k_d_c_rep_part_write_3(v));
            assert(enc_k_d_c_rep_part_write_0(v) == gc + enc_k_d_c_rep_part_write_3(v));
        }
        match &self.key_expiration {
            Some(x) => {
                let ghost ch_prev = children@;
                let ghost gc_prev = gc;
                children.push(x.to_value());
                proof {
                    assert(children@.drop_last() =~= ch_prev);
                    gc = gc.push(Tag::<3, KerberosTime>::spec_to_value(x.deep_view()));
                    assert(crate::der::view_list(children@) == gc);
                    assert(enc_k_d_c_rep_part_write_3(v) == seq![Tag::<3, KerberosTime>::spec_to_value(x.deep_view())] + enc_k_d_c_rep_part_write_4(v));
                    lemma_snoc_concat(gc_prev, Tag::<3, KerberosTime>::spec_to_value(x.deep_view()), enc_k_d_c_rep_part_write_4(v));
                    assert(enc_k_d_c_rep_part_write_0(v) == gc + enc_k_d_c_rep_part_write_4(v));
                }
            },
            None => {
                proof {
                    assert(enc_k_d_c_rep_part_write_3(v) == enc_k_d_c_rep_part_write_4(v));
                    assert(enc_k_d_c_rep_part_write_0(v) == gc + enc_k_d_c_rep_part_write_4(v));
                }
            },
        }
        let ghost ch_prev4 = children@;
        let ghost gc_prev4 = gc;
        children.push(self.flags.to_value());
        proof {
            assert(children@.drop_last() =~= ch_prev4);
            gc = gc.push(Tag::<4, TicketFlags>::spec_to_value(self.flags.deep_view()));
            assert(crate::der::view_list(children@) == gc);
            assert(enc_k_d_c_rep_part_write_4(v) == seq![Tag::<4, TicketFlags>::spec_to_value(self.flags.deep_view())] + enc_k_d_c_rep_part_write_5(v));
            lemma_snoc_concat(gc_prev4, Tag::<4, TicketFlags>::spec_to_value(self.flags.deep_view()), enc_k_d_c_rep_part_write_5(v));
            assert(enc_k_d_c_rep_part_write_0(v) == gc + enc_k_d_c_rep_part_write_5(v));
        }
        let ghost ch_prev5 = children@;
        let ghost gc_prev5 = gc;
        children.push(self.authtime.to_value());
        proof {
            assert(children@.drop_last() =~= ch_prev5);
            gc = gc.push(Tag::<5, KerberosTime>::spec_to_value(self.authtime.deep_view()));
            assert(crate::der::view_list(children@) == gc);
            assert(enc_k_d_c_rep_part_write_5(v) == seq![Tag::<5, KerberosTime>::spec_to_value(self.authtime.deep_view())] + enc_k_d_c_rep_part_write_6(v));
            lemma_snoc_concat(gc_prev5, Tag::<5, KerberosTime>::spec_to_value(self.authtime.deep_view()), enc_k_d_c_rep_part_write_6(v));
            assert(enc_k_d_c_rep_part_write_0(v) == gc + enc_k_d_c_rep_part_write_6(v));
        }
        match &self.starttime {
            Some(x) => {
                let ghost ch_prev = children@;
                let ghost gc_prev = gc;
                children.push(x.to_value());
                proof {
                    assert(children@.drop_last() =~= ch_prev);
                    gc = gc.push(Tag::<6, KerberosTime>::spec_to_value(x.deep_view()));
                    assert(crate::der::view_list(children@) == gc);
                    assert(enc_k_d_c_rep_part_write_6(v) == seq![Tag::<6, KerberosTime>::spec_to_value(x.deep_view())] + enc_k_d_c_rep_part_write_7(v));
                    lemma_snoc_concat(gc_prev, Tag::<6, KerberosTime>::spec_to_value(x.deep_view()), enc_k_d_c_rep_part_write_7(v));
                    assert(enc_k_d_c_rep_part_write_0(v) == gc + enc_k_d_c_rep_part_write_7(v));
                }
            },
            None => {
                proof {
                    assert(enc_k_d_c_rep_part_write_6(v) == enc_k_d_c_rep_part_write_7(v));
                    assert(enc_k_d_c_rep_part_write_0(v) == gc + enc_k_d_c_rep_part_write_7(v));
                }
            },
        }
        let ghost ch_prev7 = children@;
        let ghost gc_prev7 = gc;
        children.push(self.endtime.to_value());
        proof {
            assert(children@.drop_last() =~= ch_prev7);
            gc = gc.push(Tag::<7, KerberosTime>::spec_to_value(self.endtime.deep_view()));
            assert(crate::der::view_list(children@) == gc);
            assert(enc_k_d_c_rep_part_write_7(v) == seq![Tag::<7, KerberosTime>::spec_to_value(self.endtime.deep_view())] + enc_k_d_c_rep_part_write_8(v));
            lemma_snoc_concat(gc_prev7, Tag::<7, KerberosTime>::spec_to_value(self.endtime.deep_view()), enc_k_d_c_rep_part_write_8(v));
            assert(enc_k_d_c_rep_part_write_0(v) == gc + enc_k_d_c_rep_part_write_8(v));
        }
        match &self.renew_till {
            Some(x) => {
                let ghost ch_prev = children@;
                let ghost gc_prev = gc;
                children.push(x.to_value());
                proof {
                    assert(children@.drop_last() =~= ch_prev);
                    gc = gc.push(Tag::<8, KerberosTime>::spec_to_value(x.deep_view()));
                    assert(crate::der::view_list(children@) == gc);
                    assert(enc_k_d_c_rep_part_write_8(v) == seq![Tag::<8, KerberosTime>::spec_to_value(x.deep_view())] + enc_k_d_c_rep_part_write_9(v));
                    lemma_snoc_concat(gc_prev, Tag::<8, KerberosTime>::spec_to_value(x.deep_view()), enc_k_d_c_rep_part_write_9(v));
                    assert(enc_k_d_c_rep_part_write_0(v) == gc + enc_k_d_c_rep_part_write_9(v));
                }
            },
            None => {
                proof {
                    assert(enc_k_d_c_rep_part_write_8(v) == enc_k_d_c_rep_part_write_9(v));
                    assert(enc_k_d_c_rep_part_write_0(v) == gc + enc_k_d_c_rep_part_write_9(v));
                }
            },
        }
        let ghost ch_prev9 = children@;
        let ghost gc_prev9 = gc;
        children.push(self.srealm.to_value());
        proof {
            assert(children@.drop_last() =~= ch_prev9);
            gc = gc.push(Tag::<9, Realm>::spec_to_value(self.srealm.deep_view()));
            assert(crate::der::view_list(children@) == gc);
            assert(enc_k_d_c_rep_part_write_9(v) == seq![Tag::<9, Realm>::spec_to_value(self.srealm.deep_view())] + enc_k_d_c_rep_part_write_10(v));
            lemma_snoc_concat(gc_prev9, Tag::<9, Realm>::spec_to_value(self.srealm.deep_view()), enc_k_d_c_rep_part_write_10(v));
            assert(enc_k_d_c_rep_part_write_0(v) == gc + enc_k_d_c_rep_part_write_10(v));
        }
        let ghost ch_prev10 = children@;
        let ghost gc_prev10 = gc;
        children.push(self.sname.to_value());
        proof {
            assert(children@.drop_last() =~= ch_prev10);
            gc = gc.push(Tag::<10, PrincipalName>::spec_to_value(self.sname.deep_view()));
            assert(crate::der::view_list(children@) == gc);
            assert(enc_k_d_c_rep_part_write_10(v) == seq![Tag::<10, PrincipalName>::spec_to_value(self.sname.deep_view())] + enc_k_d_c_rep_part_write_11(v));
            lemma_snoc_concat(gc_prev10, Tag::<10, PrincipalName>::spec_to_value(self.sname.deep_view()), enc_k_d_c_rep_part_write_11(v));
            assert(enc_k_d_c_rep_part_write_0(v) == gc + enc_k_d_c_rep_part_write_11(v));
        }
        match &self.caddr {
            Some(x) => {
                let ghost ch_prev = children@;
                let ghost gc_prev = gc;
                children.push(x.to_value());
                proof {
                    assert(children@.drop_last() =~= ch_prev);
                    gc = gc.push(Tag::<11, HostAddresses>::spec_to_value(x.deep_view()));
                    assert(crate::der::view_list(children@) == gc);
                    assert(enc_k_d_c_rep_part_write_11(v) == seq![Tag::<11, HostAddresses>::spec_to_value(x.deep_view())] + enc_k_d_c_rep_part_write_12(v));
                    lemma_snoc_concat(gc_prev, Tag::<11, HostAddresses>::spec_to_value(x.deep_view()), enc_k_d_c_rep_part_write_12(v));
                    assert(enc_k_d_c_rep_part_write_0(v) == gc + enc_k_d_c_rep_part_write_12(v));
                }
            },
            None => {
                proof {
                    assert(enc_k_d_c_rep_part_write_11(v) == enc_k_d_c_rep_part_write_12(v));
                    assert(enc_k_d_c_rep_part_write_0(v) == gc + enc_k_d_c_rep_part_write_12(v));
                }
            },
        }
        proof {
            assert(enc_k_d_c_rep_part_write_12(v) == Seq::<AsnValue>::empty());
            lemma_concat_nil(gc);
            assert(AsnValue::Sequence(gc) == Self::spec_to_value(v));
        }
        Asn1Value::Sequence(children)
    }

    #[verifier::rlimit(100)]
    fn from_value(a: &Asn1Value) -> (r: Result<Self, KerlabError>) {
        match a {
            Asn1Value::Sequence(cs) => {
                proof {
                    crate::der::lemma_view_list(cs@);
                }
                let ghost vl = crate::der::view_list(cs@);
                proof {
                    assert(vl.skip(0) =~= vl);
                    assert(Self::spec_from_value(a@) == enc_k_d_c_rep_part_read_0(vl.skip(0)));
                }
                let n = cs.len();
                let mut i: usize = 0;
                if i >= n {
                    proof {
                        assert(vl.skip(i as int).len() == 0);
                    }
                    return Err(KerlabError::new(KerlabErrorKind::Parsing, "missing field"));
                }
                proof {
                    assert(vl.skip(i as int)[0] == vl[i as int]);
                    assert(vl[i as int] == cs@[i as int]@);
                }
                let f_key = match Tag::<0, EncryptionKey>::from_value(&cs[i]) {
                    Ok(x) => x,
                    Err(e) => {
                        return Err(e);
                    },
                };
                proof {
                    lemma_skip_skip(vl, i as int);
                }
                i += 1;
                proof {
                    assert(Self::spec_from_value(a@) == enc_k_d_c_rep_part_read_1(vl.skip(i as int), f_key.deep_view()));
                }
                if i >= n {
                    proof {
                        assert(vl.skip(i as int).len() == 0);
                    }
                    return Err(KerlabError::new(KerlabErrorKind::Parsing, "missing field"));
                }
                proof {
                    assert(vl.skip(i as int)[0] == vl[i as int]);
                    assert(vl[i as int] == cs@[i as int]@);
                }
                let f_last_req = match Tag::<1, LastReq>::from_value(&cs[i]) {
                    Ok(x) => x,
                    Err(e) => {
                        return Err(e);
                    },
                };
                proof {
                    lemma_skip_skip(vl, i as int);
                }
                i += 1;
                proof {
                    assert(Self::spec_from_value(a@) == enc_k_d_c_rep_part_read_2(vl.skip(i as int), f_key.deep_view(), f_last_req.deep_view()));
                }
                if i >= n {
                    proof {
                        assert(vl.skip(i as int).len() == 0);
                    }
                    return Err(KerlabError::new(KerlabErrorKind::Parsing, "missing field"));
                }
                proof {
                    assert(vl.skip(i as int)[0] == vl[i as int]);
                    assert(vl[i as int] == cs@[i as int]@);
                }
                let f_nonce = match Tag::<2, Integer>::from_value(&cs[i]) {
                    Ok(x) => x,
                    Err(e) => {
                        return Err(e);
                    },
                };
                proof {
                    lemma_skip_skip(vl, i as int);
                }
                i += 1;
                proof {
                    assert(Self::spec_from_value(a@) == enc_k_d_c_rep_part_read_3(vl.skip(i as int), f_key.deep_view(), f_last_req.deep_view(), f_nonce.deep_view()));
                }
                let mut f_key_expiration: Option<Tag<3, KerberosTime>> = None;
                if i < n && is_ctx(&cs[i], 3) {
                    proof {
                        assert(vl.skip(i as int)[0] == vl[i as int]);
                        assert(vl[i as int] == cs@[i as int]@);
                    }
                    match Tag::<3, KerberosTime>::from_value(&cs[i]) {
                        Ok(x) => {
                            proof {
                                lemma_skip_skip(vl, i as int);
                            }
                            f_key_expiration = Some(x);
                            i += 1;
                        },
                        Err(e) => {
                            return Err(e);
                        },
                    }
                } else {
                    proof {
                        if i < n {
                            assert(vl.skip(i as int)[0] == vl[i as int]);
                            assert(vl[i as int] == cs@[i as int]@);
                        }
                    }
                }
                proof {
                    assert(Self::spec_from_value(a@) == enc_k_d_c_rep_part_read_4(vl.skip(i as int), f_key.deep_view(), f_last_req.deep_view(), f_nonce.deep_view(), f_key_expiration.deep_view()));
                }
                if i >= n {
                    proof {
                        assert(vl.skip(i as int).len() == 0);
                    }
                    return Err(KerlabError::new(KerlabErrorKind::Parsing, "missing field"));
                }
                proof {
                    assert(vl.skip(i as int)[0] == vl[i as int]);
                    assert(vl[i as int] == cs@[i as int]@);
                }
                let f_flags = match Tag::<4, TicketFlags>::from_value(&cs[i]) {
                    Ok(x) => x,
                    Err(e) => {
                        return Err(e);
                    },
                };
                proof {
                    lemma_skip_skip(vl, i as int);
                }
                i += 1;
                proof {
                    assert(Self::spec_from_value(a@) == enc_k_d_c_rep_part_read_5(vl.skip(i as int), f_key.deep_view(), f_last_req.deep_view(), f_nonce.deep_view(), f_key_expiration.deep_view(), f_flags.deep_view()));
                }
                if i >= n {
                    proof {
                        assert(vl.skip(i as int).len() == 0);
                    }
                    return Err(KerlabError::new(KerlabErrorKind::Parsing, "missing field"));
                }
                proof {
                    assert(vl.skip(i as int)[0] == vl[i as int]);
                    assert(vl[i as int] == cs@[i as int]@);
                }
                let f_authtime = match Tag::<5, KerberosTime>::from_value(&cs[i]) {
                    Ok(x) => x,
                    Err(e) => {
                        return Err(e);
                    },
                };
                proof {
                    lemma_skip_skip(vl, i as int);
                }
                i += 1;
                proof {
                    assert(Self::spec_from_value(a@) == enc_k_d_c_rep_part_read_6(vl.skip(i as int), f_key.deep_view(), f_last_req.deep_view(), f_nonce.deep_view(), f_key_expiration.deep_view(), f_flags.deep_view(), f_authtime.deep_view()));
                }
                let mut f_starttime: Option<Tag<6, KerberosTime>> = None;
                if i < n && is_ctx(&cs[i], 6) {
                    proof {
                        assert(vl.skip(i as int)[0] == vl[i as int]);
                        assert(vl[i as int] == cs@[i as int]@);
                    }
                    match Tag::<6, KerberosTime>::from_value(&cs[i]) {
                        Ok(x) => {
                            proof {
                                lemma_skip_skip(vl, i as int);
                            }
                            f_starttime = Some(x);
                            i += 1;
                        },
                        Err(e) => {
                            return Err(e);
                        },
                    }
                } else {
                    proof {
                        if i < n {
                            assert(vl.skip(i as int)[0] == vl[i as int]);
                            assert(vl[i as int] == cs@[i as int]@);
                        }
                    }
                }
                proof {
                    assert(Self::spec_from_value(a@) == enc_k_d_c_rep_part_read_7(vl.skip(i as int), f_key.deep_view(), f_last_req.deep_view(), f_nonce.deep_view(), f_key_expiration.deep_view(), f_flags.deep_view(), f_authtime.deep_view(), f_starttime.deep_view()));
                }
                if i >= n {
                    proof {
                        assert(vl.skip(i as int).len() == 0);
                    }
                    return Err(KerlabError::new(KerlabErrorKind::Parsing, "missing field"));
                }
                proof {
                    assert(vl.skip(i as int)[0] == vl[i as int]);
                    assert(vl[i as int] == cs@[i as int]@);
                }
                let f_endtime = match Tag::<7, KerberosTime>::from_value(&cs[i]) {
                    Ok(x) => x,
                    Err(e) => {
                        return Err(e);
                    },
                };
                proof {
                    lemma_skip_skip(vl, i as int);
                }
                i += 1;
                proof {
                    assert(Self::spec_from_value(a@) == enc_k_d_c_rep_part_read_8(vl.skip(i as int), f_key.deep_view(), f_last_req.deep_view(), f_nonce.deep_view(), f_key_expiration.deep_view(), f_flags.deep_view(), f_authtime.deep_view(), f_starttime.deep_view(), f_endtime.deep_view()));
                }
                let mut f_renew_till: Option<Tag<8, KerberosTime>> = None;
                if i < n && is_ctx(&cs[i], 8) {
                    proof {
                        assert(vl.skip(i as int)[0] == vl[i as int]);
                        assert(vl[i as int] == cs@[i as int]@);
                    }
                    match Tag::<8, KerberosTime>::from_value(&cs[i]) {
                        Ok(x) => {
                            proof {
                                lemma_skip_skip(vl, i as int);
                            }
                            f_renew_till = Some(x);
                            i += 1;
                        },
                        Err(e) => {
                            return Err(e);
                        },
                    }
                } else {
                    proof {
                        if i < n {
                            assert(vl.skip(i as int)[0] == vl[i as int]);
                            assert(vl[i as int] == cs@[i as int]@);
                        }
                    }
                }
                proof {
                    assert(Self::spec_from_value(a@) == enc_k_d_c_rep_part_read_9(vl.skip(i as int), f_key.deep_view(), f_last_req.deep_view(), f_nonce.deep_view(), f_key_expiration.deep_view(), f_flags.deep_view(), f_authtime.deep_view(), f_starttime.deep_view(), f_endtime.deep_view(), f_renew_till.deep_view()));
                }
                if i >= n {
                    proof {
                        assert(vl.skip(i as int).len() == 0);
                    }
                    return Err(KerlabError::new(KerlabErrorKind::Parsing, "missing field"));
                }
                proof {
                    assert(vl.skip(i as int)[0] == vl[i as int]);
                    assert(vl[i as int] == cs@[i as int]@);
                }
                let f_srealm = match Tag::<9, Realm>::from_value(&cs[i]) {
                    Ok(x) => x,
                    Err(e) => {
                        return Err(e);
                    },
                };
                proof {
                    lemma_skip_skip(vl, i as int);
                }
                i += 1;
                proof {
                    assert(Self::spec_from_value(a@) == enc_k_d_c_rep_part_read_10(vl.skip(i as int), f_key.deep_view(), f_last_req.deep_view(), f_nonce.deep_view(), f_key_expiration.deep_view(), f_flags.deep_view(), f_authtime.deep_view(), f_starttime.deep_view(), f_endtime.deep_view(), f_renew_till.deep_view(), f_srealm.deep_view()));
                }
                if i >= n {
                    proof {
                        assert(vl.skip(i as int).len() == 0);
                    }
                    return Err(KerlabError::new(KerlabErrorKind::Parsing, "missing field"));
                }
                proof {
                    assert(vl.skip(i as int)[0] == vl[i as int]);
                    assert(vl[i as int] == cs@[i as int]@);
                }
                let f_sname = match Tag::<10, PrincipalName>::from_value(&cs[i]) {
                    Ok(x) => x,
                    Err(e) => {
                        return Err(e);
                    },
                };
                proof {
                    lemma_skip_skip(vl, i as int);
                }
                i += 1;
                proof {
                    assert(Self::spec_from_value(a@) == enc_k_d_c_rep_part_read_11(vl.skip(i as int), f_key.deep_view(), f_last_req.deep_view(), f_nonce.deep_view(), f_key_expiration.deep_view(), f_flags.deep_view(), f_authtime.deep_view(), f_starttime.deep_view(), f_endtime.deep_view(), f_renew_till.deep_view(), f_srealm.deep_view(), f_sname.deep_view()));
                }
                let mut f_caddr: Option<Tag<11, HostAddresses>> = None;
                if i < n && is_ctx(&cs[i], 11) {
                    proof {
                        assert(vl.skip(i as int)[0] == vl[i as int]);
                        assert(vl[i as int] == cs@[i as int]@);
                    }
                    match Tag::<11, HostAddresses>::from_value(&cs[i]) {
                        Ok(x) => {
                            proof {
                                lemma_skip_skip(vl, i as int);
                            }
                            f_caddr = Some(x);
                            i += 1;
                        },
                        Err(e) => {
                            return Err(e);
                        },
                    }
                } else {
                    proof {
                        if i < n {
                            assert(vl.skip(i as int)[0] == vl[i as int]);
                            assert(vl[i as int] == cs@[i as int]@);
                        }
                    }
                }
                proof {
                    assert(Self::spec_from_value(a@) == enc_k_d_c_rep_part_read_12(vl.skip(i as int), f_key.deep_view(), f_last_req.deep_view(), f_nonce.deep_view(), f_key_expiration.deep_view(), f_flags.deep_view(), f_authtime.deep_view(), f_starttime.deep_view(), f_endtime.deep_view(), f_renew_till.deep_view(), f_srealm.deep_view(), f_sname.deep_view(), f_caddr.deep_view()));
                }
                if i != n {
                    return Err(KerlabError::new(KerlabErrorKind::Parsing, "unexpected extra field"));
                }
                proof {
                    assert(vl.skip(i as int).len() == 0);
                }
                Ok(EncKDCRepPart {
                    key: f_key,
                    last_req: f_last_req,
                    nonce: f_nonce,
                    key_expiration: f_key_expiration,
                    flags: f_flags,
                    authtime: f_authtime,
                    starttime: f_starttime,
                    endtime: f_endtime,
                    renew_till: f_renew_till,
                    srealm: f_srealm,
                    sname: f_sname,
                    caddr: f_caddr,
                })
            },
            _ => Err(KerlabError::new(KerlabErrorKind::Parsing, "expected a sequence")),
        }
    }

    proof fn lemma_round_trip(v: EncKDCRepPartView) {
        enc_k_d_c_rep_part_rt_0(v);
        assert(Self::spec_from_value(Self::spec_to_value(v)) == Some(v));
    }
}

/// Reading no children past the last field yields the view back.
proof fn enc_k_d_c_rep_part_rt_12(v: EncKDCRepPartView)
    requires
        EncKDCRepPart::view_wf(v),
    ensures
        enc_k_d_c_rep_part_read_12(enc_k_d_c_rep_part_write_12(v), v.key, v.last_req, v.nonce, v.key_expiration, v.flags, v.authtime, v.starttime, v.endtime, v.renew_till, v.srealm, v.sname, v.caddr) == Some(v),
        forall|j: int| 0 <= j < enc_k_d_c_rep_part_write_12(v).len() ==> value_wf(#[trigger] enc_k_d_c_rep_part_write_12(v)[j]),
{
    assert(enc_k_d_c_rep_part_write_12(v).len() == 0);
    assert((EncKDCRepPartView { key: v.key, last_req: v.last_req, nonce: v.nonce, key_expiration: v.key_expiration, flags: v.flags, authtime: v.authtime, starttime: v.starttime, endtime: v.endtime, renew_till: v.renew_till, srealm: v.srealm, sname: v.sname, caddr: v.caddr }) =~= v);
}

/// Reading the children written from field 11 on yields the view back.
proof fn enc_k_d_c_rep_part_rt_11(v: EncKDCRepPartView)
    requires
        EncKDCRepPart::view_wf(v),
    ensures
        enc_k_d_c_rep_part_read_11(enc_k_d_c_rep_part_write_11(v), v.key, v.last_req, v.nonce, v.key_expiration, v.flags, v.authtime, v.starttime, v.endtime, v.renew_till, v.srealm, v.sname) == Some(v),
        forall|j: int| 0 <= j < enc_k_d_c_rep_part_write_11(v).len() ==> value_wf(#[trigger] enc_k_d_c_rep_part_write_11(v)[j]),
{
    enc_k_d_c_rep_part_rt_12(v);
    match v.caddr {
        Some(x) => {
            Tag::<11, HostAddresses>::lemma_round_trip(x);
            assert(enc_k_d_c_rep_part_write_11(v) == seq![Tag::<11, HostAddresses>::spec_to_value(x)] + enc_k_d_c_rep_part_write_12(v));
            assert(enc_k_d_c_rep_part_write_11(v)[0] == Tag::<11, HostAddresses>::spec_to_value(x));
            assert(has_ctx(enc_k_d_c_rep_part_write_11(v)[0], 11));
            lemma_cons_skip(Tag::<11, HostAddresses>::spec_to_value(x), enc_k_d_c_rep_part_write_12(v));
            assert(enc_k_d_c_rep_part_read_11(enc_k_d_c_rep_part_write_11(v), v.key, v.last_req, v.nonce, v.key_expiration, v.flags, v.authtime, v.starttime, v.endtime, v.renew_till, v.srealm, v.sname) == enc_k_d_c_rep_part_read_12(enc_k_d_c_rep_part_write_12(v), v.key, v.last_req, v.nonce, v.key_expiration, v.flags, v.authtime, v.starttime, v.endtime, v.renew_till, v.srealm, v.sname, Some(x)));
            assert forall|j: int| 0 <= j < enc_k_d_c_rep_part_write_11(v).len() implies value_wf(#[trigger] enc_k_d_c_rep_part_write_11(v)[j]) by {
                if j >= 1 {
                    assert(enc_k_d_c_rep_part_write_11(v)[j] == enc_k_d_c_rep_part_write_12(v)[j - 1]);
                }
            }
        },
        None => {
            assert(enc_k_d_c_rep_part_write_11(v) == enc_k_d_c_rep_part_write_12(v));
            if enc_k_d_c_rep_part_write_12(v).len() > 0 {
                assert(!has_ctx(enc_k_d_c_rep_part_write_12(v)[0], 11));
            }
            assert(enc_k_d_c_rep_part_read_11(enc_k_d_c_rep_part_write_11(v), v.key, v.last_req, v.nonce, v.key_expiration, v.flags, v.authtime, v.starttime, v.endtime, v.renew_till, v.srealm, v.sname) == enc_k_d_c_rep_part_read_12(enc_k_d_c_rep_part_write_12(v), v.key, v.last_req, v.nonce, v.key_expiration, v.flags, v.authtime, v.starttime, v.endtime, v.renew_till, v.srealm, v.sname, None::<Seq<HostAddressView>>));
        },
    }
}

/// Reading the children written from field 10 on yields the view back.
proof fn enc_k_d_c_rep_part_rt_10(v: EncKDCRepPartView)
    requires
        EncKDCRepPart::view_wf(v),
    ensures
        enc_k_d_c_rep_part_read_10(enc_k_d_c_rep_part_write_10(v), v.key, v.last_req, v.nonce, v.key_expiration, v.flags, v.authtime, v.starttime, v.endtime, v.renew_till, v.srealm) == Some(v),
        forall|j: int| 0 <= j < enc_k_d_c_rep_part_write_10(v).len() ==> value_wf(#[trigger] enc_k_d_c_rep_part_write_10(v)[j]),
{
    enc_k_d_c_rep_part_rt_11(v);
    Tag::<10, PrincipalName>::lemma_round_trip(v.sname);
    assert(enc_k_d_c_rep_part_write_10(v) == seq![Tag::<10, PrincipalName>::spec_to_value(v.sname)] + enc_k_d_c_rep_part_write_11(v));
    assert(enc_k_d_c_rep_part_write_10(v)[0] == Tag::<10, PrincipalName>::spec_to_value(v.sname));
    assert(has_ctx(enc_k_d_c_rep_part_write_10(v)[0], 10));
    lemma_cons_skip(Tag::<10, PrincipalName>::spec_to_value(v.sname), enc_k_d_c_rep_part_write_11(v));
    assert(enc_k_d_c_rep_part_read_10(enc_k_d_c_rep_part_write_10(v), v.key, v.last_req, v.nonce, v.key_expiration, v.flags, v.authtime, v.starttime, v.endtime, v.renew_till, v.srealm) == enc_k_d_c_rep_part_read_11(enc_k_d_c_rep_part_write_11(v), v.key, v.last_req, v.nonce, v.key_expiration, v.flags, v.authtime, v.starttime, v.endtime, v.renew_till, v.srealm, v.sname));
    assert forall|j: int| 0 <= j < enc_k_d_c_rep_part_write_10(v).len() implies value_wf(#[trigger] enc_k_d_c_rep_part_write_10(v)[j]) by {
        if j >= 1 {
            assert(enc_k_d_c_rep_part_write_10(v)[j] == enc_k_d_c_rep_part_write_11(v)[j - 1]);
        }
    }
}

/// Reading the children written from field 9 on yields the view back.
proof fn enc_k_d_c_rep_part_rt_9(v: EncKDCRepPartView)
    requires
        EncKDCRepPart::view_wf(v),
    ensures
        enc_k_d_c_rep_part_read_9(enc_k_d_c_rep_part_write_9(v), v.key, v.last_req, v.nonce, v.key_expiration, v.flags, v.authtime, v.starttime, v.endtime, v.renew_till) == Some(v),
        forall|j: int| 0 <= j < enc_k_d_c_rep_part_write_9(v).len() ==> value_wf(#[trigger] enc_k_d_c_rep_part_write_9(v)[j]),
{
    enc_k_d_c_rep_part_rt_10(v);
    Tag::<9, Realm>::lemma_round_trip(v.srealm);
    assert(enc_k_d_c_rep_part_write_9(v) == seq![Tag::<9, Realm>::spec_to_value(v.srealm)] + enc_k_d_c_rep_part_write_10(v));
    assert(enc_k_d_c_rep_part_write_9(v)[0] == Tag::<9, Realm>::spec_to_value(v.srealm));
    assert(has_ctx(enc_k_d_c_rep_part_write_9(v)[0], 9));
    lemma_cons_skip(Tag::<9, Realm>::spec_to_value(v.srealm), enc_k_d_c_rep_part_write_10(v));
    assert(enc_k_d_c_rep_part_read_9(enc_k_d_c_rep_part_write_9(v), v.key, v.last_req, v.nonce, v.key_expiration, v.flags, v.authtime, v.starttime, v.endtime, v.renew_till) == enc_k_d_c_rep_part_read_10(enc_k_d_c_rep_part_write_10(v), v.key, v.last_req, v.nonce, v.key_expiration, v.flags, v.authtime, v.starttime, v.endtime, v.renew_till, v.srealm));
    assert forall|j: int| 0 <= j < enc_k_d_c_rep_part_write_9(v).len() implies value_wf(#[trigger] enc_k_d_c_rep_part_write_9(v)[j]) by {
        if j >= 1 {
            assert(enc_k_d_c_rep_part_write_9(v)[j] == enc_k_d_c_rep_part_write_10(v)[j - 1]);
        }
    }
}

/// Reading the children written from field 8 on yields the view back.
proof fn enc_k_d_c_rep_part_rt_8(v: EncKDCRepPartView)
    requires
        EncKDCRepPart::view_wf(v),
    ensures
        enc_k_d_c_rep_part_read_8(enc_k_d_c_rep_part_write_8(v), v.key, v.last_req, v.nonce, v.key_expiration, v.flags, v.authtime, v.starttime, v.endtime) == Some(v),
        forall|j: int| 0 <= j < enc_k_d_c_rep_part_write_8(v).len() ==> value_wf(#[trigger] enc_k_d_c_rep_part_write_8(v)[j]),
{
    enc_k_d_c_rep_part_rt_9(v);
    match v.renew_till {
        Some(x) => {
            Tag::<8, KerberosTime>::lemma_round_trip(x);
            assert(enc_k_d_c_rep_part_write_8(v) == seq![Tag::<8, KerberosTime>::spec_to_value(x)] + enc_k_d_c_rep_part_write_9(v));
            assert(enc_k_d_c_rep_part_write_8(v)[0] == Tag::<8, KerberosTime>::spec_to_value(x));
            assert(has_ctx(enc_k_d_c_rep_part_write_8(v)[0], 8));
            lemma_cons_skip(Tag::<8, KerberosTime>::spec_to_value(x), enc_k_d_c_rep_part_write_9(v));
            assert(enc_k_d_c_rep_part_read_8(enc_k_d_c_rep_part_write_8(v), v.key, v.last_req, v.nonce, v.key_expiration, v.flags, v.authtime, v.starttime, v.endtime) == enc_k_d_c_rep_part_read_9(enc_k_d_c_rep_part_write_9(v), v.key, v.last_req, v.nonce, v.key_expiration, v.flags, v.authtime, v.starttime, v.endtime, Some(x)));
            assert forall|j: int| 0 <= j < enc_k_d_c_rep_part_write_8(v).len() implies value_wf(#[trigger] enc_k_d_c_rep_part_write_8(v)[j]) by {
                if j >= 1 {
                    assert(enc_k_d_c_rep_part_write_8(v)[j] == enc_k_d_c_rep_part_write_9(v)[j - 1]);
                }
            }
        },
        None => {
            assert(enc_k_d_c_rep_part_write_8(v) == enc_k_d_c_rep_part_write_9(v));
            if enc_k_d_c_rep_part_write_9(v).len() > 0 {
                assert(!has_ctx(enc_k_d_c_rep_part_write_9(v)[0], 8));
            }
            assert(enc_k_d_c_rep_part_read_8(enc_k_d_c_rep_part_write_8(v), v.key, v.last_req, v.nonce, v.key_expiration, v.flags, v.authtime, v.starttime, v.endtime) == enc_k_d_c_rep_part_read_9(enc_k_d_c_rep_part_write_9(v), v.key, v.last_req, v.nonce, v.key_expiration, v.flags, v.authtime, v.starttime, v.endtime, None::<GeneralizedTime>));
        },
    }
}

/// Reading the children written from field 7 on yields the view back.
proof fn enc_k_d_c_rep_part_rt_7(v: EncKDCRepPartView)
    requires
        EncKDCRepPart::view_wf(v),
    ensures
        enc_k_d_c_rep_part_read_7(enc_k_d_c_rep_part_write_7(v), v.key, v.last_req, v.nonce, v.key_expiration, v.flags, v.authtime, v.starttime) == Some(v),
        forall|j: int| 0 <= j < enc_k_d_c_rep_part_write_7(v).len() ==> value_wf(#[trigger] enc_k_d_c_rep_part_write_7(v)[j]),
{
    enc_k_d_c_rep_part_rt_8(v);
    Tag::<7, KerberosTime>::lemma_round_trip(v.endtime);
    assert(enc_k_d_c_rep_part_write_7(v) == seq![Tag::<7, KerberosTime>::spec_to_value(v.endtime)] + enc_k_d_c_rep_part_write_8(v));
    assert(enc_k_d_c_rep_part_write_7(v)[0] == Tag::<7, KerberosTime>::spec_to_value(v.endtime));
    assert(has_ctx(enc_k_d_c_rep_part_write_7(v)[0], 7));
    lemma_cons_skip(Tag::<7, KerberosTime>::spec_to_value(v.endtime), enc_k_d_c_rep_part_write_8(v));
    assert(enc_k_d_c_rep_part_read_7(enc_k_d_c_rep_part_write_7(v), v.key, v.last_req, v.nonce, v.key_expiration, v.flags, v.authtime, v.starttime) == enc_k_d_c_rep_part_read_8(enc_k_d_c_rep_part_write_8(v), v.key, v.last_req, v.nonce, v.key_expiration, v.flags, v.authtime, v.starttime, v.endtime));
    assert forall|j: int| 0 <= j < enc_k_d_c_rep_part_write_7(v).len() implies value_wf(#[trigger] enc_k_d_c_rep_part_write_7(v)[j]) by {
        if j >= 1 {
            assert(enc_k_d_c_rep_part_write_7(v)[j] == enc_k_d_c_rep_part_write_8(v)[j - 1]);
        }
    }
}

/// Reading the children written from field 6 on yields the view back.
proof fn enc_k_d_c_rep_part_rt_6(v: EncKDCRepPartView)
    requires
        EncKDCRepPart::view_wf(v),
    ensures
        enc_k_d_c_rep_part_read_6(enc_k_d_c_rep_part_write_6(v), v.key, v.last_req, v.nonce, v.key_expiration, v.flags, v.authtime) == Some(v),
        forall|j: int| 0 <= j < enc_k_d_c_rep_part_write_6(v).len() ==> value_wf(#[trigger] enc_k_d_c_rep_part_write_6(v)[j]),
{
    enc_k_d_c_rep_part_rt_7(v);
    match v.starttime {
        Some(x) => {
            Tag::<6, KerberosTime>::lemma_round_trip(x);
            assert(enc_k_d_c_rep_part_write_6(v) == seq![Tag::<6, KerberosTime>::spec_to_value(x)] + enc_k_d_c_rep_part_write_7(v));
            assert(enc_k_d_c_rep_part_write_6(v)[0] == Tag::<6, KerberosTime>::spec_to_value(x));
            assert(has_ctx(enc_k_d_c_rep_part_write_6(v)[0], 6));
            lemma_cons_skip(Tag::<6, KerberosTime>::spec_to_value(x), enc_k_d_c_rep_part_write_7(v));
            assert(enc_k_d_c_rep_part_read_6(enc_k_d_c_rep_part_write_6(v), v.key, v.last_req, v.nonce, v.key_expiration, v.flags, v.authtime) == enc_k_d_c_rep_part_read_7(enc_k_d_c_rep_part_write_7(v), v.key, v.last_req, v.nonce, v.key_expiration, v.flags, v.authtime, Some(x)));
            assert forall|j: int| 0 <= j < enc_k_d_c_rep_part_write_6(v).len() implies value_wf(#[trigger] enc_k_d_c_rep_part_write_6(v)[j]) by {
                if j >= 1 {
                    assert(enc_k_d_c_rep_part_write_6(v)[j] == enc_k_d_c_rep_part_write_7(v)[j - 1]);
                }
            }
        },
        None => {
            assert(enc_k_d_c_rep_part_write_6(v) == enc_k_d_c_rep_part_write_7(v));
            if enc_k_d_c_rep_part_write_7(v).len() > 0 {
                assert(!has_ctx(enc_k_d_c_rep_part_write_7(v)[0], 6));
            }
            assert(enc_k_d_c_rep_part_read_6(enc_k_d_c_rep_part_write_6(v), v.key, v.last_req, v.nonce, v.key_expiration, v.flags, v.authtime) == enc_k_d_c_rep_part_read_7(enc_k_d_c_rep_part_write_7(v), v.key, v.last_req, v.nonce, v.key_expiration, v.flags, v.authtime, None::<GeneralizedTime>));
        },
    }
}

/// Reading the children written from field 5 on yields the view back.
proof fn enc_k_d_c_rep_part_rt_5(v: EncKDCRepPartView)
    requires
        EncKDCRepPart::view_wf(v),
    ensures
        enc_k_d_c_rep_part_read_5(enc_k_d_c_rep_part_write_5(v), v.key, v.last_req, v.nonce, v.key_expiration, v.flags) == Some(v),
        forall|j: int| 0 <= j < enc_k_d_c_rep_part_write_5(v).len() ==> value_wf(#[trigger] enc_k_d_c_rep_part_write_5(v)[j]),
{
    enc_k_d_c_rep_part_rt_6(v);
    Tag::<5, KerberosTime>::lemma_round_trip(v.authtime);
    assert(enc_k_d_c_rep_part_write_5(v) == seq![Tag::<5, KerberosTime>::spec_to_value(v.authtime)] + enc_k_d_c_rep_part_write_6(v));
    assert(enc_k_d_c_rep_part_write_5(v)[0] == Tag::<5, KerberosTime>::spec_to_value(v.authtime));
    assert(has_ctx(enc_k_d_c_rep_part_write_5(v)[0], 5));
    lemma_cons_skip(Tag::<5, KerberosTime>::spec_to_value(v.authtime), enc_k_d_c_rep_part_write_6(v));
    assert(enc_k_d_c_rep_part_read_5(enc_k_d_c_rep_part_write_5(v), v.key, v.last_req, v.nonce, v.key_expiration, v.flags) == enc_k_d_c_rep_part_read_6(enc_k_d_c_rep_part_write_6(v), v.key, v.last_req, v.nonce, v.key_expiration, v.flags, v.authtime));
    assert forall|j: int| 0 <= j < enc_k_d_c_rep_part_write_5(v).len() implies value_wf(#[trigger] enc_k_d_c_rep_part_write_5(v)[j]) by {
        if j >= 1 {
            assert(enc_k_d_c_rep_part_write_5(v)[j] == enc_k_d_c_rep_part_write_6(v)[j - 1]);
        }
    }
}

/// Reading the children written from field 4 on yields the view back.
proof fn enc_k_d_c_rep_part_rt_4(v: EncKDCRepPartView)
    requires
        EncKDCRepPart::view_wf(v),
    ensures
        enc_k_d_c_rep_part_read_4(enc_k_d_c_rep_part_write_4(v), v.key, v.last_req, v.nonce, v.key_expiration) == Some(v),
        forall|j: int| 0 <= j < enc_k_d_c_rep_part_write_4(v).len() ==> value_wf(#[trigger] enc_k_d_c_rep_part_write_4(v)[j]),
{
    enc_k_d_c_rep_part_rt_5(v);
    Tag::<4, TicketFlags>::lemma_round_trip(v.flags);
    assert(enc_k_d_c_rep_part_write_4(v) == seq![Tag::<4, TicketFlags>::spec_to_value(v.flags)] + enc_k_d_c_rep_part_write_5(v));
    assert(enc_k_d_c_rep_part_write_4(v)[0] == Tag::<4, TicketFlags>::spec_to_value(v.flags));
    assert(has_ctx(enc_k_d_c_rep_part_write_4(v)[0], 4));
    lemma_cons_skip(Tag::<4, TicketFlags>::spec_to_value(v.flags), enc_k_d_c_rep_part_write_5(v));
    assert(enc_k_d_c_rep_part_read_4(enc_k_d_c_rep_part_write_4(v), v.key, v.last_req, v.nonce, v.key_expiration) == enc_k_d_c_rep_part_read_5(enc_k_d_c_rep_part_write_5(v), v.key, v.last_req, v.nonce, v.key_expiration, v.flags));
    assert forall|j: int| 0 <= j < enc_k_d_c_rep_part_write_4(v).len() implies value_wf(#[trigger] enc_k_d_c_rep_part_write_4(v)[j]) by {
        if j >= 1 {
            assert(enc_k_d_c_rep_part_write_4(v)[j] == enc_k_d_c_rep_part_write_5(v)[j - 1]);
        }
    }
}

/// Reading the children written from field 3 on yields the view back.
proof fn enc_k_d_c_rep_part_rt_3(v: EncKDCRepPartView)
    requires
        EncKDCRepPart::view_wf(v),
    ensures
        enc_k_d_c_rep_part_read_3(enc_k_d_c_rep_part_write_3(v), v.key, v.last_req, v.nonce) == Some(v),
        forall|j: int| 0 <= j < enc_k_d_c_rep_part_write_3(v).len() ==> value_wf(#[trigger] enc_k_d_c_rep_part_write_3(v)[j]),
{
    enc_k_d_c_rep_part_rt_4(v);
    match v.key_expiration {
        Some(x) => {
            Tag::<3, KerberosTime>::lemma_round_trip(x);
            assert(enc_k_d_c_rep_part_write_3(v) == seq![Tag::<3, KerberosTime>::spec_to_value(x)] + enc_k_d_c_rep_part_write_4(v));
            assert(enc_k_d_c_rep_part_write_3(v)[0] == Tag::<3, KerberosTime>::spec_to_value(x));
            assert(has_ctx(enc_k_d_c_rep_part_write_3(v)[0], 3));
            lemma_cons_skip(Tag::<3, KerberosTime>::spec_to_value(x), enc_k_d_c_rep_part_write_4(v));
            assert(enc_k_d_c_rep_part_read_3(enc_k_d_c_rep_part_write_3(v), v.key, v.last_req, v.nonce) == enc_k_d_c_rep_part_read_4(enc_k_d_c_rep_part_write_4(v), v.key, v.last_req, v.nonce, Some(x)));
            assert forall|j: int| 0 <= j < enc_k_d_c_rep_part_write_3(v).len() implies value_wf(#[trigger] enc_k_d_c_rep_part_write_3(v)[j]) by {
                if j >= 1 {
                    assert(enc_k_d_c_rep_part_write_3(v)[j] == enc_k_d_c_rep_part_write_4(v)[j - 1]);
                }
            }
        },
        None => {
            assert(enc_k_d_c_rep_part_write_3(v) == enc_k_d_c_rep_part_write_4(v));
            if enc_k_d_c_rep_part_write_4(v).len() > 0 {
                assert(!has_ctx(enc_k_d_c_rep_part_write_4(v)[0], 3));
            }
            assert(enc_k_d_c_rep_part_read_3(enc_k_d_c_rep_part_write_3(v), v.key, v.last_req, v.nonce) == enc_k_d_c_rep_part_read_4(enc_k_d_c_rep_part_write_4(v), v.key, v.last_req, v.nonce, None::<GeneralizedTime>));
        },
    }
}

/// Reading the children written from field 2 on yields the view back.
proof fn enc_k_d_c_rep_part_rt_2(v: EncKDCRepPartView)
    requires
        EncKDCRepPart::view_wf(v),
    ensures
        enc_k_d_c_rep_part_read_2(enc_k_d_c_rep_part_write_2(v), v.key, v.last_req) == Some(v),
        forall|j: int| 0 <= j < enc_k_d_c_rep_part_write_2(v).len() ==> value_wf(#[trigger] enc_k_d_c_rep_part_write_2(v)[j]),
{
    enc_k_d_c_rep_part_rt_3(v);
    Tag::<2, Integer>::lemma_round_trip(v.nonce);
    assert(enc_k_d_c_rep_part_write_2(v) == seq![Tag::<2, Integer>::spec_to_value(v.nonce)] + enc_k_d_c_rep_part_write_3(v));
    assert(enc_k_d_c_rep_part_write_2(v)[0] == Tag::<2, Integer>::spec_to_value(v.nonce));
    assert(has_ctx(enc_k_d_c_rep_part_write_2(v)[0], 2));
    lemma_cons_skip(Tag::<2, Integer>::spec_to_value(v.nonce), enc_k_d_c_rep_part_write_3(v));
    assert(enc_k_d_c_rep_part_read_2(enc_k_d_c_rep_part_write_2(v), v.key, v.last_req) == enc_k_d_c_rep_part_read_3(enc_k_d_c_rep_part_write_3(v), v.key, v.last_req, v.nonce));
    assert forall|j: int| 0 <= j < enc_k_d_c_rep_part_write_2(v).len() implies value_wf(#[trigger] enc_k_d_c_rep_part_write_2(v)[j]) by {
        if j >= 1 {
            assert(enc_k_d_c_rep_part_write_2(v)[j] == enc_k_d_c_rep_part_write_3(v)[j - 1]);
        }
    }
}

/// Reading the children written from field 1 on yields the view back.
proof fn enc_k_d_c_rep_part_rt_1(v: EncKDCRepPartView)
    requires
        EncKDCRepPart::view_wf(v),
    ensures
        enc_k_d_c_rep_part_read_1(enc_k_d_c_rep_part_write_1(v), v.key) == Some(v),
        forall|j: int| 0 <= j < enc_k_d_c_rep_part_write_1(v).len() ==> value_wf(#[trigger] enc_k_d_c_rep_part_write_1(v)[j]),
{
    enc_k_d_c_rep_part_rt_2(v);
    Tag::<1, LastReq>::lemma_round_trip(v.last_req);
    assert(enc_k_d_c_rep_part_write_1(v) == seq![Tag::<1, LastReq>::spec_to_value(v.last_req)] + enc_k_d_c_rep_part_write_2(v));
    assert(enc_k_d_c_rep_part_write_1(v)[0] == Tag::<1, LastReq>::spec_to_value(v.last_req));
    assert(has_ctx(enc_k_d_c_rep_part_write_1(v)[0], 1));
    lemma_cons_skip(Tag::<1, LastReq>::spec_to_value(v.last_req), enc_k_d_c_rep_part_write_2(v));
    assert(enc_k_d_c_rep_part_read_1(enc_k_d_c_rep_part_write_1(v), v.key) == enc_k_d_c_rep_part_read_2(enc_k_d_c_rep_part_write_2(v), v.key, v.last_req));
    assert forall|j: int| 0 <= j < enc_k_d_c_rep_part_write_1(v).len() implies value_wf(#[trigger] enc_k_d_c_rep_part_write_1(v)[j]) by {
        if j >= 1 {
            assert(enc_k_d_c_rep_part_write_1(v)[j] == enc_k_d_c_rep_part_write_2(v)[j - 1]);
        }
    }
}

/// Reading the children written from field 0 on yields the view back.
proof fn enc_k_d_c_rep_part_rt_0(v: EncKDCRepPartView)
    requires
        EncKDCRepPart::view_wf(v),
    ensures
        enc_k_d_c_rep_part_read_0(enc_k_d_c_rep_part_write_0(v)) == Some(v),
        forall|j: int| 0 <= j < enc_k_d_c_rep_part_write_0(v).len() ==> value_wf(#[trigger] enc_k_d_c_rep_part_write_0(v)[j]),
{
    enc_k_d_c_rep_part_rt_1(v);
    Tag::<0, EncryptionKey>::lemma_round_trip(v.key);
    assert(enc_k_d_c_rep_part_write_0(v) == seq![Tag::<0, EncryptionKey>::spec_to_value(v.key)] + enc_k_d_c_rep_part_write_1(v));
    assert(enc_k_d_c_rep_part_write_0(v)[0] == Tag::<0, EncryptionKey>::spec_to_value(v.key));
    assert(has_ctx(enc_k_d_c_rep_part_write_0(v)[0], 0));
    lemma_cons_skip(Tag::<0, EncryptionKey>::spec_to_value(v.key), enc_k_d_c_rep_part_write_1(v));
    assert(enc_k_d_c_rep_part_read_0(enc_k_d_c_rep_part_write_0(v)) == enc_k_d_c_rep_part_read_1(enc_k_d_c_rep_part_write_1(v), v.key));
    assert forall|j: int| 0 <= j < enc_k_d_c_rep_part_write_0(v).len() implies value_wf(#[trigger] enc_k_d_c_rep_part_write_0(v)[j]) by {
        if j >= 1 {
            assert(enc_k_d_c_rep_part_write_0(v)[j] == enc_k_d_c_rep_part_write_1(v)[j - 1]);
        }
    }
}

/// An AS-REP: `[APPLICATION 11]` around a KDC-REP.
pub type AsRep = Application<11, KdcRep>;

/// A TGS-REP: `[APPLICATION 13]` around a KDC-REP.
pub type TgsRep = Application<13, KdcRep>;

/// The decrypted part of an AS-REP: `[APPLICATION 25]`.
pub type EncASRepPart = Application<25, EncKDCRepPart>;

/// The decrypted part of a TGS-REP: `[APPLICATION 26]`.
pub type EncTGSRepPart = Application<26, EncKDCRepPart>;

impl AsRep {
    /// Decrypt the enc-part of this reply with the user password: derive
    /// the NTLM hash and open the envelope with the AS-REP enc-part usage.
    pub fn decrypt(&self, password: &str) -> (r: KerlabResult<EncASRepPart>)
        ensures
            match r {
                Ok(x) => spec_open_cipher(
                    EncryptionKeyView {
                        keytype: self.deep_view().enc_part.etype,
                        keyvalue: md4_of(utf16le_of(password@)),
                    },
                    KeyUsage::KeyUsageAsRepEncPart.spec_value(),
                    self.deep_view().enc_part,
                ) matches Some(pt) && crate::asn1::spec_from_bytes::<EncASRepPart>(pt) == Some(
                    x.deep_view(),
                ) && <EncASRepPart as Asn1Data>::view_wf(x.deep_view()),
                Err(e) => if self.deep_view().enc_part.etype != 0 && self.deep_view().enc_part.etype
                    != 23 {
                    e.spec_kind() == crate::error::KerlabErrorKind::Crypto
                } else if self.deep_view().enc_part.etype == 23 && crate::rc4hmac::rc4hmac_open(
                    md4_of(utf16le_of(password@)),
                    KeyUsage::KeyUsageAsRepEncPart.spec_value(),
                    self.deep_view().enc_part.cipher,
                ) is None {
                    e.spec_kind() == crate::error::KerlabErrorKind::Kerberos
                } else {
                    &&& spec_open_cipher(
                        EncryptionKeyView {
                            keytype: self.deep_view().enc_part.etype,
                            keyvalue: md4_of(utf16le_of(password@)),
                        },
                        KeyUsage::KeyUsageAsRepEncPart.spec_value(),
                        self.deep_view().enc_part,
                    ) matches Some(pt) && crate::asn1::spec_from_bytes::<EncASRepPart>(pt) is None
                    &&& e.spec_kind() == crate::error::KerlabErrorKind::Parsing
                },
            },
    {
        self.inner.enc_part.inner.decrypt_as::<EncASRepPart>(
            password,
            KeyUsage::KeyUsageAsRepEncPart,
        )
    }
}

} // verus!