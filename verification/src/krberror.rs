//! The KRB-ERROR message a KDC answers with when a request fails
//! (RFC 1510 section 5.9.1).

use vstd::prelude::*;

verus! {

use crate::asn1::{
    Asn1Data, lemma_concat_nil, lemma_cons_skip, lemma_nil_concat, lemma_skip_skip, lemma_snoc_concat, BitStringView, GeneralString, Integer, OctetString, SequenceOf, SInteger, Tag,
    has_ctx, is_ctx,
};
use crate::base::{KerberosTime, Realm};
use crate::der::{AsnValue, Asn1Value, GeneralizedTime, value_wf};
use crate::error::{KerlabError, KerlabErrorKind};

use crate::asn1::Application;
use crate::base::{PrincipalName, PrincipalNameView};

/// The KRB-ERROR body (RFC 1510 section 5.9.1), with its error-code.
#[derive(Debug, Clone, PartialEq, Default)]
pub struct KrbErrorBody {
    pub pvno: Tag<0, Integer>,
    pub msg_type: Tag<1, Integer>,
    pub ctime: Option<Tag<2, KerberosTime>>,
    pub cusec: Option<Tag<3, Integer>>,
    pub stime: Tag<4, KerberosTime>,
    pub susec: Tag<5, Integer>,
    pub error_code: Tag<6, Integer>,
    pub crealm: Option<Tag<7, Realm>>,
    pub cname: Option<Tag<8, PrincipalName>>,
    pub realm: Tag<9, Realm>,
    pub sname: Tag<10, PrincipalName>,
    pub e_text: Option<Tag<11, GeneralString>>,
    pub e_data: Option<Tag<12, OctetString>>,
}

/// The deep view of [`KrbErrorBody`].
#[verifier::ext_equal]
pub struct KrbErrorBodyView {
    pub pvno: u32,
    pub msg_type: u32,
    pub ctime: Option<GeneralizedTime>,
    pub cusec: Option<u32>,
    pub stime: GeneralizedTime,
    pub susec: u32,
    pub error_code: u32,
    pub crealm: Option<Seq<u8>>,
    pub cname: Option<PrincipalNameView>,
    pub realm: Seq<u8>,
    pub sname: PrincipalNameView,
    pub e_text: Option<Seq<u8>>,
    pub e_data: Option<Seq<u8>>,
}

impl DeepView for KrbErrorBody {
    type V = KrbErrorBodyView;

    open spec fn deep_view(&self) -> KrbErrorBodyView {
        KrbErrorBodyView {
            pvno: self.pvno.deep_view(),
            msg_type: self.msg_type.deep_view(),
            ctime: self.ctime.deep_view(),
            cusec: self.cusec.deep_view(),
            stime: self.stime.deep_view(),
            susec: self.susec.deep_view(),
            error_code: self.error_code.deep_view(),
            crealm: self.crealm.deep_view(),
            cname: self.cname.deep_view(),
            realm: self.realm.deep_view(),
            sname: self.sname.deep_view(),
            e_text: self.e_text.deep_view(),
            e_data: self.e_data.deep_view(),
        }
    }
}

/// The children a [`KrbErrorBody`] writes from its field 0 on.
pub open spec fn krb_error_body_write_0(v: KrbErrorBodyView) -> Seq<AsnValue> {
    seq![Tag::<0, Integer>::spec_to_value(v.pvno)] + krb_error_body_write_1(v)
}

/// The children a [`KrbErrorBody`] writes from its field 1 on.
pub open spec fn krb_error_body_write_1(v: KrbErrorBodyView) -> Seq<AsnValue> {
    seq![Tag::<1, Integer>::spec_to_value(v.msg_type)] + krb_error_body_write_2(v)
}

/// The children a [`KrbErrorBody`] writes from its field 2 on.
pub open spec fn krb_error_body_write_2(v: KrbErrorBodyView) -> Seq<AsnValue> {
    match v.ctime {
        Some(x) => seq![Tag::<2, KerberosTime>::spec_to_value(x)] + krb_error_body_write_3(v),
        None => krb_error_body_write_3(v),
    }
}

/// The children a [`KrbErrorBody`] writes from its field 3 on.
pub open spec fn krb_error_body_write_3(v: KrbErrorBodyView) -> Seq<AsnValue> {
    match v.cusec {
        Some(x) => seq![Tag::<3, Integer>::spec_to_value(x)] + krb_error_body_write_4(v),
        None => krb_error_body_write_4(v),
    }
}

/// The children a [`KrbErrorBody`] writes from its field 4 on.
pub open spec fn krb_error_body_write_4(v: KrbErrorBodyView) -> Seq<AsnValue> {
    seq![Tag::<4, KerberosTime>::spec_to_value(v.stime)] + krb_error_body_write_5(v)
}

/// The children a [`KrbErrorBody`] writes from its field 5 on.
pub open spec fn krb_error_body_write_5(v: KrbErrorBodyView) -> Seq<AsnValue> {
    seq![Tag::<5, Integer>::spec_to_value(v.susec)] + krb_error_body_write_6(v)
}

/// The children a [`KrbErrorBody`] writes from its field 6 on.
pub open spec fn krb_error_body_write_6(v: KrbErrorBodyView) -> Seq<AsnValue> {
    seq![Tag::<6, Integer>::spec_to_value(v.error_code)] + krb_error_body_write_7(v)
}

/// The children a [`KrbErrorBody`] writes from its field 7 on.
pub open spec fn krb_error_body_write_7(v: KrbErrorBodyView) -> Seq<AsnValue> {
    match v.crealm {
        Some(x) => seq![Tag::<7, Realm>::spec_to_value(x)] + krb_error_body_write_8(v),
        None => krb_error_body_write_8(v),
    }
}

/// The children a [`KrbErrorBody`] writes from its field 8 on.
pub open spec fn krb_error_body_write_8(v: KrbErrorBodyView) -> Seq<AsnValue> {
    match v.cname {
        Some(x) => seq![Tag::<8, PrincipalName>::spec_to_value(x)] + krb_error_body_write_9(v),
        None => krb_error_body_write_9(v),
    }
}

/// The children a [`KrbErrorBody`] writes from its field 9 on.
pub open spec fn krb_error_body_write_9(v: KrbErrorBodyView) -> Seq<AsnValue> {
    seq![Tag::<9, Realm>::spec_to_value(v.realm)] + krb_error_body_write_10(v)
}

/// The children a [`KrbErrorBody`] writes from its field 10 on.
pub open spec fn krb_error_body_write_10(v: KrbErrorBodyView) -> Seq<AsnValue> {
    seq![Tag::<10, PrincipalName>::spec_to_value(v.sname)] + krb_error_body_write_11(v)
}

/// The children a [`KrbErrorBody`] writes from its field 11 on.
pub open spec fn krb_error_body_write_11(v: KrbErrorBodyView) -> Seq<AsnValue> {
    match v.e_text {
        Some(x) => seq![Tag::<11, GeneralString>::spec_to_value(x)] + krb_error_body_write_12(v),
        None => krb_error_body_write_12(v),
    }
}

/// The children a [`KrbErrorBody`] writes from its field 12 on.
pub open spec fn krb_error_body_write_12(v: KrbErrorBodyView) -> Seq<AsnValue> {
    match v.e_data {
        Some(x) => seq![Tag::<12, OctetString>::spec_to_value(x)] + krb_error_body_write_13(v),
        None => krb_error_body_write_13(v),
    }
}

/// The children a [`KrbErrorBody`] writes past its last field: none.
pub open spec fn krb_error_body_write_13(v: KrbErrorBodyView) -> Seq<AsnValue> {
    Seq::empty()
}

/// Read the fields of a [`KrbErrorBody`] from field 0 on.
pub open spec fn krb_error_body_read_0(cs: Seq<AsnValue>) -> Option<KrbErrorBodyView> {
    if cs.len() > 0 {
        match Tag::<0, Integer>::spec_from_value(cs[0]) {
            Some(f) => krb_error_body_read_1(cs.skip(1), f),
            None => None,
        }
    } else {
        None
    }
}

/// Read the fields of a [`KrbErrorBody`] from field 1 on.
pub open spec fn krb_error_body_read_1(cs: Seq<AsnValue>, f_pvno: u32) -> Option<KrbErrorBodyView> {
    if cs.len() > 0 {
        match Tag::<1, Integer>::spec_from_value(cs[0]) {
            Some(f) => krb_error_body_read_2(cs.skip(1), f_pvno, f),
            None => None,
        }
    } else {
        None
    }
}

/// Read the fields of a [`KrbErrorBody`] from field 2 on.
pub open spec fn krb_error_body_read_2(cs: Seq<AsnValue>, f_pvno: u32, f_msg_type: u32) -> Option<KrbErrorBodyView> {
    if cs.len() > 0 && has_ctx(cs[0], 2) {
        match Tag::<2, KerberosTime>::spec_from_value(cs[0]) {
            Some(f) => krb_error_body_read_3(cs.skip(1), f_pvno, f_msg_type, Some(f)),
            None => None,
        }
    } else {
        krb_error_body_read_3(cs, f_pvno, f_msg_type, None::<GeneralizedTime>)
    }
}

/// Read the fields of a [`KrbErrorBody`] from field 3 on.
pub open spec fn krb_error_body_read_3(cs: Seq<AsnValue>, f_pvno: u32, f_msg_type: u32, f_ctime: Option<GeneralizedTime>) -> Option<KrbErrorBodyView> {
    if cs.len() > 0 && has_ctx(cs[0], 3) {
        match Tag::<3, Integer>::spec_from_value(cs[0]) {
            Some(f) => krb_error_body_read_4(cs.skip(1), f_pvno, f_msg_type, f_ctime, Some(f)),
            None => None,
        }
    } else {
        krb_error_body_read_4(cs, f_pvno, f_msg_type, f_ctime, None::<u32>)
    }
}

/// Read the fields of a [`KrbErrorBody`] from field 4 on.
pub open spec fn krb_error_body_read_4(cs: Seq<AsnValue>, f_pvno: u32, f_msg_type: u32, f_ctime: Option<GeneralizedTime>, f_cusec: Option<u32>) -> Option<KrbErrorBodyView> {
    if cs.len() > 0 {
        match Tag::<4, KerberosTime>::spec_from_value(cs[0]) {
            Some(f) => krb_error_body_read_5(cs.skip(1), f_pvno, f_msg_type, f_ctime, f_cusec, f),
            None => None,
        }
    } else {
        None
    }
}

/// Read the fields of a [`KrbErrorBody`] from field 5 on.
pub open spec fn krb_error_body_read_5(cs: Seq<AsnValue>, f_pvno: u32, f_msg_type: u32, f_ctime: Option<GeneralizedTime>, f_cusec: Option<u32>, f_stime: GeneralizedTime) -> Option<KrbErrorBodyView> {
    if cs.len() > 0 {
        match Tag::<5, Integer>::spec_from_value(cs[0]) {
            Some(f) => krb_error_body_read_6(cs.skip(1), f_pvno, f_msg_type, f_ctime, f_cusec, f_stime, f),
            None => None,
        }
    } else {
        None
    }
}

/// Read the fields of a [`KrbErrorBody`] from field 6 on.
pub open spec fn krb_error_body_read_6(cs: Seq<AsnValue>, f_pvno: u32, f_msg_type: u32, f_ctime: Option<GeneralizedTime>, f_cusec: Option<u32>, f_stime: GeneralizedTime, f_susec: u32) -> Option<KrbErrorBodyView> {
    if cs.len() > 0 {
        match Tag::<6, Integer>::spec_from_value(cs[0]) {
            Some(f) => krb_error_body_read_7(cs.skip(1), f_pvno, f_msg_type, f_ctime, f_cusec, f_stime, f_susec, f),
            None => None,
        }
    } else {
        None
    }
}

/// Read the fields of a [`KrbErrorBody`] from field 7 on.
pub open spec fn krb_error_body_read_7(cs: Seq<AsnValue>, f_pvno: u32, f_msg_type: u32, f_ctime: Option<GeneralizedTime>, f_cusec: Option<u32>, f_stime: GeneralizedTime, f_susec: u32, f_error_code: u32) -> Option<KrbErrorBodyView> {
    if cs.len() > 0 && has_ctx(cs[0], 7) {
        match Tag::<7, Realm>::spec_from_value(cs[0]) {
            Some(f) => krb_error_body_read_8(cs.skip(1), f_pvno, f_msg_type, f_ctime, f_cusec, f_stime, f_susec, f_error_code, Some(f)),
            None => None,
        }
    } else {
        krb_error_body_read_8(cs, f_pvno, f_msg_type, f_ctime, f_cusec, f_stime, f_susec, f_error_code, None::<Seq<u8>>)
    }
}

/// Read the fields of a [`KrbErrorBody`] from field 8 on.
pub open spec fn krb_error_body_read_8(cs: Seq<AsnValue>, f_pvno: u32, f_msg_type: u32, f_ctime: Option<GeneralizedTime>, f_cusec: Option<u32>, f_stime: GeneralizedTime, f_susec: u32, f_error_code: u32, f_crealm: Option<Seq<u8>>) -> Option<KrbErrorBodyView> {
    if cs.len() > 0 && has_ctx(cs[0], 8) {
        match Tag::<8, PrincipalName>::spec_from_value(cs[0]) {
            Some(f) => krb_error_body_read_9(cs.skip(1), f_pvno, f_msg_type, f_ctime, f_cusec, f_stime, f_susec, f_error_code, f_crealm, Some(f)),
            None => None,
        }
    } else {
        krb_error_body_read_9(cs, f_pvno, f_msg_type, f_ctime, f_cusec, f_stime, f_susec, f_error_code, f_crealm, None::<PrincipalNameView>)
    }
}

/// Read the fields of a [`KrbErrorBody`] from field 9 on.
pub open spec fn krb_error_body_read_9(cs: Seq<AsnValue>, f_pvno: u32, f_msg_type: u32, f_ctime: Option<GeneralizedTime>, f_cusec: Option<u32>, f_stime: GeneralizedTime, f_susec: u32, f_error_code: u32, f_crealm: Option<Seq<u8>>, f_cname: Option<PrincipalNameView>) -> Option<KrbErrorBodyView> {
    if cs.len() > 0 {
        match Tag::<9, Realm>::spec_from_value(cs[0]) {
            Some(f) => krb_error_body_read_10(cs.skip(1), f_pvno, f_msg_type, f_ctime, f_cusec, f_stime, f_susec, f_error_code, f_crealm, f_cname, f),
            None => None,
        }
    } else {
        None
    }
}

/// Read the fields of a [`KrbErrorBody`] from field 10 on.
pub open spec fn krb_error_body_read_10(cs: Seq<AsnValue>, f_pvno: u32, f_msg_type: u32, f_ctime: Option<GeneralizedTime>, f_cusec: Option<u32>, f_stime: GeneralizedTime, f_susec: u32, f_error_code: u32, f_crealm: Option<Seq<u8>>, f_cname: Option<PrincipalNameView>, f_realm: Seq<u8>) -> Option<KrbErrorBodyView> {
    if cs.len() > 0 {
        match Tag::<10, PrincipalName>::spec_from_value(cs[0]) {
            Some(f) => krb_error_body_read_11(cs.skip(1), f_pvno, f_msg_type, f_ctime, f_cusec, f_stime, f_susec, f_error_code, f_crealm, f_cname, f_realm, f),
            None => None,
        }
    } else {
        None
    }
}

/// Read the fields of a [`KrbErrorBody`] from field 11 on.
pub open spec fn krb_error_body_read_11(cs: Seq<AsnValue>, f_pvno: u32, f_msg_type: u32, f_ctime: Option<GeneralizedTime>, f_cusec: Option<u32>, f_stime: GeneralizedTime, f_susec: u32, f_error_code: u32, f_crealm: Option<Seq<u8>>, f_cname: Option<PrincipalNameView>, f_realm: Seq<u8>, f_sname: PrincipalNameView) -> Option<KrbErrorBodyView> {
    if cs.len() > 0 && has_ctx(cs[0], 11) {
        match Tag::<11, GeneralString>::spec_from_value(cs[0]) {
            Some(f) => krb_error_body_read_12(cs.skip(1), f_pvno, f_msg_type, f_ctime, f_cusec, f_stime, f_susec, f_error_code, f_crealm, f_cname, f_realm, f_sname, Some(f)),
            None => None,
        }
    } else {
        krb_error_body_read_12(cs, f_pvno, f_msg_type, f_ctime, f_cusec, f_stime, f_susec, f_error_code, f_crealm, f_cname, f_realm, f_sname, None::<Seq<u8>>)
    }
}

/// Read the fields of a [`KrbErrorBody`] from field 12 on.
pub open spec fn krb_error_body_read_12(cs: Seq<AsnValue>, f_pvno: u32, f_msg_type: u32, f_ctime: Option<GeneralizedTime>, f_cusec: Option<u32>, f_stime: GeneralizedTime, f_susec: u32, f_error_code: u32, f_crealm: Option<Seq<u8>>, f_cname: Option<PrincipalNameView>, f_realm: Seq<u8>, f_sname: PrincipalNameView, f_e_text: Option<Seq<u8>>) -> Option<KrbErrorBodyView> {
    if cs.len() > 0 && has_ctx(cs[0], 12) {
        match Tag::<12, OctetString>::spec_from_value(cs[0]) {
            Some(f) => krb_error_body_read_13(cs.skip(1), f_pvno, f_msg_type, f_ctime, f_cusec, f_stime, f_susec, f_error_code, f_crealm, f_cname, f_realm, f_sname, f_e_text, Some(f)),
            None => None,
        }
    } else {
        krb_error_body_read_13(cs, f_pvno, f_msg_type, f_ctime, f_cusec, f_stime, f_susec, f_error_code, f_crealm, f_cname, f_realm, f_sname, f_e_text, None::<Seq<u8>>)
    }
}

/// Past the last field of a [`KrbErrorBody`]: the children must be spent.
pub open spec fn krb_error_body_read_13(cs: Seq<AsnValue>, f_pvno: u32, f_msg_type: u32, f_ctime: Option<GeneralizedTime>, f_cusec: Option<u32>, f_stime: GeneralizedTime, f_susec: u32, f_error_code: u32, f_crealm: Option<Seq<u8>>, f_cname: Option<PrincipalNameView>, f_realm: Seq<u8>, f_sname: PrincipalNameView, f_e_text: Option<Seq<u8>>, f_e_data: Option<Seq<u8>>) -> Option<KrbErrorBodyView> {
    if cs.len() == 0 {
        Some(KrbErrorBodyView {
            pvno: f_pvno,
            msg_type: f_msg_type,
            ctime: f_ctime,
            cusec: f_cusec,
            stime: f_stime,
            susec: f_susec,
            error_code: f_error_code,
            crealm: f_crealm,
            cname: f_cname,
            realm: f_realm,
            sname: f_sname,
            e_text: f_e_text,
            e_data: f_e_data,
        })
    } else {
        None
    }
}

impl Asn1Data for KrbErrorBody {
    open spec fn view_wf(v: KrbErrorBodyView) -> bool {
        Tag::<0, Integer>::view_wf(v.pvno)
            && Tag::<1, Integer>::view_wf(v.msg_type)
            && (match v.ctime {
            Some(x) => Tag::<2, KerberosTime>::view_wf(x),
            None => true,
        })
            && (match v.cusec {
            Some(x) => Tag::<3, Integer>::view_wf(x),
            None => true,
        })
            && Tag::<4, KerberosTime>::view_wf(v.stime)
            && Tag::<5, Integer>::view_wf(v.susec)
            && Tag::<6, Integer>::view_wf(v.error_code)
            && (match v.crealm {
            Some(x) => Tag::<7, Realm>::view_wf(x),
            None => true,
        })
            && (match v.cname {
            Some(x) => Tag::<8, PrincipalName>::view_wf(x),
            None => true,
        })
            && Tag::<9, Realm>::view_wf(v.realm)
            && Tag::<10, PrincipalName>::view_wf(v.sname)
            && (match v.e_text {
            Some(x) => Tag::<11, GeneralString>::view_wf(x),
            None => true,
        })
            && (match v.e_data {
            Some(x) => Tag::<12, OctetString>::view_wf(x),
            None => true,
        })
    }

    open spec fn spec_to_value(v: KrbErrorBodyView) -> AsnValue {
        AsnValue::Sequence(krb_error_body_write_0(v))
    }

    open spec fn spec_from_value(a: AsnValue) -> Option<KrbErrorBodyView> {
        match a {
            AsnValue::Sequence(cs) => krb_error_body_read_0(cs),
            _ => None,
        }
    }

    #[verifier::rlimit(100)]
    fn to_value(&self) -> (r: Asn1Value) {
        let ghost v = self.deep_view();
        let mut children: Vec<Asn1Value> = Vec::new();
        let ghost mut gc: Seq<AsnValue> = Seq::empty();
        proof {
            assert(crate::der::view_list(children@) =~= gc);
            lemma_nil_concat(krb_error_body_write_0(v));
            assert(krb_error_body_write_0(v) == gc + krb_error_body_write_0(v));
        }
        let ghost ch_prev0 = children@;
        let ghost gc_prev0 = gc;
        children.push(self.pvno.to_value());
        proof {
            assert(children@.drop_last() =~= ch_prev0);
            gc = gc.push(Tag::<0, Integer>::spec_to_value(self.pvno.deep_view()));
            assert(crate::der::view_list(children@) == gc);
            assert(krb_error_body_write_0(v) == seq![Tag::<0, Integer>::spec_to_value(self.pvno.deep_view())] + krb_error_body_write_1(v));
            lemma_snoc_concat(gc_prev0, Tag::<0, Integer>::spec_to_value(self.pvno.deep_view()), krb_error_body_write_1(v));
            assert(krb_error_body_write_0(v) == gc + krb_error_body_write_1(v));
        }
        let ghost ch_prev1 = children@;
        let ghost gc_prev1 = gc;
        children.push(self.msg_type.to_value());
        proof {
            assert(children@.drop_last() =~= ch_prev1);
            gc = gc.push(Tag::<1, Integer>::spec_to_value(self.msg_type.deep_view()));
            assert(crate::der::view_list(children@) == gc);
            assert(krb_error_body_write_1(v) == seq![Tag::<1, Integer>::spec_to_value(self.msg_type.deep_view())] + krb_error_body_write_2(v));
            lemma_snoc_concat(gc_prev1, Tag::<1, Integer>::spec_to_value(self.msg_type.deep_view()), krb_error_body_write_2(v));
            assert(krb_error_body_write_0(v) == gc + krb_error_body_write_2(v));
        }
        match &self.ctime {
            Some(x) => {
                let ghost ch_prev = children@;
                let ghost gc_prev = gc;
                children.push(x.to_value());
                proof {
                    assert(children@.drop_last() =~= ch_prev);
                    gc = gc.push(Tag::<2, KerberosTime>::spec_to_value(x.deep_view()));
                    assert(crate::der::view_list(children@) == gc);
                    assert(krb_error_body_write_2(v) == seq![Tag::<2, KerberosTime>::spec_to_value(x.deep_view())] + krb_error_body_write_3(v));
                    lemma_snoc_concat(gc_prev, Tag::<2, KerberosTime>::spec_to_value(x.deep_view()), krb_error_body_write_3(v));
                    assert(krb_error_body_write_0(v) == gc + krb_error_body_write_3(v));
                }
            },
            None => {
                proof {
                    assert(krb_error_body_write_2(v) == krb_error_body_write_3(v));
                    assert(krb_error_body_write_0(v) == gc + krb_error_body_write_3(v));
                }
            },
        }
        match &self.cusec {
            Some(x) => {
                let ghost ch_prev = children@;
                let ghost gc_prev = gc;
                children.push(x.to_value());
                proof {
                    assert(children@.drop_last() =~= ch_prev);
                    gc = gc.push(Tag::<3, Integer>::spec_to_value(x.deep_view()));
                    assert(crate::der::view_list(children@) == gc);
                    assert(krb_error_body_write_3(v) == seq![Tag::<3, Integer>::spec_to_value(x.deep_view())] + krb_error_body_write_4(v));
                    lemma_snoc_concat(gc_prev, Tag::<3, Integer>::spec_to_value(x.deep_view()), krb_error_body_write_4(v));
                    assert(krb_error_body_write_0(v) == gc + krb_error_body_write_4(v));
                }
            },
            None => {
                proof {
                    assert(krb_error_body_write_3(v) == krb_error_body_write_4(v));
                    assert(krb_error_body_write_0(v) == gc + krb_error_body_write_4(v));
                }
            },
        }
        let ghost ch_prev4 = children@;
        let ghost gc_prev4 = gc;
        children.push(self.stime.to_value());
        proof {
            assert(children@.drop_last() =~= ch_prev4);
            gc = gc.push(Tag::<4, KerberosTime>::spec_to_value(self.stime.deep_view()));
            assert(crate::der::view_list(children@) == gc);
            assert(krb_error_body_write_4(v) == seq![Tag::<4, KerberosTime>::spec_to_value(self.stime.deep_view())] + krb_error_body_write_5(v));
            lemma_snoc_concat(gc_prev4, Tag::<4, KerberosTime>::spec_to_value(self.stime.deep_view()), krb_error_body_write_5(v));
            assert(krb_error_body_write_0(v) == gc + krb_error_body_write_5(v));
        }
        let ghost ch_prev5 = children@;
        let ghost gc_prev5 = gc;
        children.push(self.susec.to_value());
        proof {
            assert(children@.drop_last() =~= ch_prev5);
            gc = gc.push(Tag::<5, Integer>::spec_to_value(self.susec.deep_view()));
            assert(crate::der::view_list(children@) == gc);
            assert(krb_error_body_write_5(v) == seq![Tag::<5, Integer>::spec_to_value(self.susec.deep_view())] + krb_error_body_write_6(v));
            lemma_snoc_concat(gc_prev5, Tag::<5, Integer>::spec_to_value(self.susec.deep_view()), krb_error_body_write_6(v));
            assert(krb_error_body_write_0(v) == gc + krb_error_body_write_6(v));
        }
        let ghost ch_prev6 = children@;
        let ghost gc_prev6 = gc;
        children.push(self.error_code.to_value());
        proof {
            assert(children@.drop_last() =~= ch_prev6);
            gc = gc.push(Tag::<6, Integer>::spec_to_value(self.error_code.deep_view()));
            assert(crate::der::view_list(children@) == gc);
            assert(krb_error_body_write_6(v) == seq![Tag::<6, Integer>::spec_to_value(self.error_code.deep_view())] + krb_error_body_write_7(v));
            lemma_snoc_concat(gc_prev6, Tag::<6, Integer>::spec_to_value(self.error_code.deep_view()), krb_error_body_write_7(v));
            assert(krb_error_body_write_0(v) == gc + krb_error_body_write_7(v));
        }
        match &self.crealm {
            Some(x) => {
                let ghost ch_prev = children@;
                let ghost gc_prev = gc;
                children.push(x.to_value());
                proof {
                    assert(children@.drop_last() =~= ch_prev);
                    gc = gc.push(Tag::<7, Realm>::spec_to_value(x.deep_view()));
                    assert(crate::der::view_list(children@) == gc);
                    assert(krb_error_body_write_7(v) == seq![Tag::<7, Realm>::spec_to_value(x.deep_view())] + krb_error_body_write_8(v));
                    lemma_snoc_concat(gc_prev, Tag::<7, Realm>::spec_to_value(x.deep_view()), krb_error_body_write_8(v));
                    assert(krb_error_body_write_0(v) == gc + krb_error_body_write_8(v));
                }
            },
            None => {
                proof {
                    assert(krb_error_body_write_7(v) == krb_error_body_write_8(v));
                    assert(krb_error_body_write_0(v) == gc + krb_error_body_write_8(v));
                }
            },
        }
        match &self.cname {
            Some(x) => {
                let ghost ch_prev = children@;
                let ghost gc_prev = gc;
                children.push(x.to_value());
                proof {
                    assert(children@.drop_last() =~= ch_prev);
                    gc = gc.push(Tag::<8, PrincipalName>::spec_to_value(x.deep_view()));
                    assert(crate::der::view_list(children@) == gc);
                    assert(krb_error_body_write_8(v) == seq![Tag::<8, PrincipalName>::spec_to_value(x.deep_view())] + krb_error_body_write_9(v));
                    lemma_snoc_concat(gc_prev, Tag::<8, PrincipalName>::spec_to_value(x.deep_view()), krb_error_body_write_9(v));
                    assert(krb_error_body_write_0(v) == gc + krb_error_body_write_9(v));
                }
            },
            None => {
                proof {
                    assert(krb_error_body_write_8(v) == krb_error_body_write_9(v));
                    assert(krb_error_body_write_0(v) == gc + krb_error_body_write_9(v));
                }
            },
        }
        let ghost ch_prev9 = children@;
        let ghost gc_prev9 = gc;
        children.push(self.realm.to_value());
        proof {
            assert(children@.drop_last() =~= ch_prev9);
            gc = gc.push(Tag::<9, Realm>::spec_to_value(self.realm.deep_view()));
            assert(crate::der::view_list(children@) == gc);
            assert(krb_error_body_write_9(v) == seq![Tag::<9, Realm>::spec_to_value(self.realm.deep_view())] + krb_error_body_write_10(v));
            lemma_snoc_concat(gc_prev9, Tag::<9, Realm>::spec_to_value(self.realm.deep_view()), krb_error_body_write_10(v));
            assert(krb_error_body_write_0(v) == gc + krb_error_body_write_10(v));
        }
        let ghost ch_prev10 = children@;
        let ghost gc_prev10 = gc;
        children.push(self.sname.to_value());
        proof {
            assert(children@.drop_last() =~= ch_prev10);
            gc = gc.push(Tag::<10, PrincipalName>::spec_to_value(self.sname.deep_view()));
            assert(crate::der::view_list(children@) == gc);
            assert(krb_error_body_write_10(v) == seq![Tag::<10, PrincipalName>::spec_to_value(self.sname.deep_view())] + krb_error_body_write_11(v));
            lemma_snoc_concat(gc_prev10, Tag::<10, PrincipalName>::spec_to_value(self.sname.deep_view()), krb_error_body_write_11(v));
            assert(krb_error_body_write_0(v) == gc + krb_error_body_write_11(v));
        }
        match &self.e_text {
            Some(x) => {
                let ghost ch_prev = children@;
                let ghost gc_prev = gc;
                children.push(x.to_value());
                proof {
                    assert(children@.drop_last() =~= ch_prev);
                    gc = gc.push(Tag::<11, GeneralString>::spec_to_value(x.deep_view()));
                    assert(crate::der::view_list(children@) == gc);
                    assert(krb_error_body_write_11(v) == seq![Tag::<11, GeneralString>::spec_to_value(x.deep_view())] + krb_error_body_write_12(v));
                    lemma_snoc_concat(gc_prev, Tag::<11, GeneralString>::spec_to_value(x.deep_view()), krb_error_body_write_12(v));
                    assert(krb_error_body_write_0(v) == gc + krb_error_body_write_12(v));
                }
            },
            None => {
                proof {
                    assert(krb_error_body_write_11(v) == krb_error_body_write_12(v));
                    assert(krb_error_body_write_0(v) == gc + krb_error_body_write_12(v));
                }
            },
        }
        match &self.e_data {
            Some(x) => {
                let ghost ch_prev = children@;
                let ghost gc_prev = gc;
                children.push(x.to_value());
                proof {
                    assert(children@.drop_last() =~= ch_prev);
                    gc = gc.push(Tag::<12, OctetString>::spec_to_value(x.deep_view()));
                    assert(crate::der::view_list(children@) == gc);
                    assert(krb_error_body_write_12(v) == seq![Tag::<12, OctetString>::spec_to_value(x.deep_view())] + krb_error_body_write_13(v));
                    lemma_snoc_concat(gc_prev, Tag::<12, OctetString>::spec_to_value(x.deep_view()), krb_error_body_write_13(v));
                    assert(krb_error_body_write_0(v) == gc + krb_error_body_write_13(v));
                }
            },
            None => {
                proof {
                    assert(krb_error_body_write_12(v) == krb_error_body_write_13(v));
                    assert(krb_error_body_write_0(v) == gc + krb_error_body_write_13(v));
                }
            },
        }
        proof {
            assert(krb_error_body_write_13(v) == Seq::<AsnValue>::empty());
            lemma_concat_nil(gc);
            assert(AsnValue::Sequence(gc) == Self::spec_to_value(v));
        }
        Asn1Value::Sequence(children)
    }

    #[verifier::rlimit(100)]
    fn from_value(a: &Asn1Value) -> (r: Result<Self, KerlabError>) {
        match a {
            Asn1Value::Sequence(cs) => {
                proof {
                    crate::der::lemma_view_list(cs@);
                }
                let ghost vl = crate::der::view_list(cs@);
                proof {
                    assert(vl.skip(0) =~= vl);
                    assert(Self::spec_from_value(a@) == krb_error_body_read_0(vl.skip(0)));
                }
                let n = cs.len();
                let mut i: usize = 0;
                if i >= n {
                    proof {
                        assert(vl.skip(i as int).len() == 0);
                    }
                    return Err(KerlabError::new(KerlabErrorKind::Parsing, "missing field"));
                }
                proof {
                    assert(vl.skip(i as int)[0] == vl[i as int]);
                    assert(vl[i as int] == cs@[i as int]@);
                }
                let f_pvno = match Tag::<0, Integer>::from_value(&cs[i]) {
                    Ok(x) => x,
                    Err(e) => {
                        return Err(e);
                    },
                };
                proof {
                    lemma_skip_skip(vl, i as int);
                }
                i += 1;
                proof {
                    assert(Self::spec_from_value(a@) == krb_error_body_read_1(vl.skip(i as int), f_pvno.deep_view()));
                }
                if i >= n {
                    proof {
                        assert(vl.skip(i as int).len() == 0);
                    }
                    return Err(KerlabError::new(KerlabErrorKind::Parsing, "missing field"));
                }
                proof {
                    assert(vl.skip(i as int)[0] == vl[i as int]);
                    assert(vl[i as int] == cs@[i as int]@);
                }
                let f_msg_type = match Tag::<1, Integer>::from_value(&cs[i]) {
                    Ok(x) => x,
                    Err(e) => {
                        return Err(e);
                    },
                };
                proof {
                    lemma_skip_skip(vl, i as int);
                }
                i += 1;
                proof {
                    assert(Self::spec_from_value(a@) == krb_error_body_read_2(vl.skip(i as int), f_pvno.deep_view(), f_msg_type.deep_view()));
                }
                let mut f_ctime: Option<Tag<2, KerberosTime>> = None;
                if i < n && is_ctx(&cs[i], 2) {
                    proof {
                        assert(vl.skip(i as int)[0] == vl[i as int]);
                        assert(vl[i as int] == cs@[i as int]@);
                    }
                    match Tag::<2, KerberosTime>::from_value(&cs[i]) {
                        Ok(x) => {
                            proof {
                                lemma_skip_skip(vl, i as int);
                            }
                            f_ctime = Some(x);
                            i += 1;
                        },
                        Err(e) => {
                            return Err(e);
                        },
                    }
                } else {
                    proof {
                        if i < n {
                            assert(vl.skip(i as int)[0] == vl[i as int]);
                            assert(vl[i as int] == cs@[i as int]@);
                        }
                    }
                }
                proof {
                    assert(Self::spec_from_value(a@) == krb_error_body_read_3(vl.skip(i as int), f_pvno.deep_view(), f_msg_type.deep_view(), f_ctime.deep_view()));
                }
                let mut f_cusec: Option<Tag<3, Integer>> = None;
                if i < n && is_ctx(&cs[i], 3) {
                    proof {
                        assert(vl.skip(i as int)[0] == vl[i as int]);
                        assert(vl[i as int] == cs@[i as int]@);
                    }
                    match Tag::<3, Integer>::from_value(&cs[i]) {
                        Ok(x) => {
                            proof {
                                lemma_skip_skip(vl, i as int);
                            }
                            f_cusec = Some(x);
                            i += 1;
                        },
                        Err(e) => {
                            return Err(e);
                        },
                    }
                } else {
                    proof {
                        if i < n {
                            assert(vl.skip(i as int)[0] == vl[i as int]);
                            assert(vl[i as int] == cs@[i as int]@);
                        }
                    }
                }
                proof {
                    assert(Self::spec_from_value(a@) == krb_error_body_read_4(vl.skip(i as int), f_pvno.deep_view(), f_msg_type.deep_view(), f_ctime.deep_view(), f_cusec.deep_view()));
                }
                if i >= n {
                    proof {
                        assert(vl.skip(i as int).len() == 0);
                    }
                    return Err(KerlabError::new(KerlabErrorKind::Parsing, "missing field"));
                }
                proof {
                    assert(vl.skip(i as int)[0] == vl[i as int]);
                    assert(vl[i as int] == cs@[i as int]@);
                }
                let f_stime = match Tag::<4, KerberosTime>::from_value(&cs[i]) {
                    Ok(x) => x,
                    Err(e) => {
                        return Err(e);
                    },
                };
                proof {
                    lemma_skip_skip(vl, i as int);
                }
                i += 1;
                proof {
                    assert(Self::spec_from_value(a@) == krb_error_body_read_5(vl.skip(i as int), f_pvno.deep_view(), f_msg_type.deep_view(), f_ctime.deep_view(), f_cusec.deep_view(), f_stime.deep_view()));
                }
                if i >= n {
                    proof {
                        assert(vl.skip(i as int).len() == 0);
                    }
                    return Err(KerlabError::new(KerlabErrorKind::Parsing, "missing field"));
                }
                proof {
                    assert(vl.skip(i as int)[0] == vl[i as int]);
                    assert(vl[i as int] == cs@[i as int]@);
                }
                let f_susec = match Tag::<5, Integer>::from_value(&cs[i]) {
                    Ok(x) => x,
                    Err(e) => {
                        return Err(e);
                    },
                };
                proof {
                    lemma_skip_skip(vl, i as int);
                }
                i += 1;
                proof {
                    assert(Self::spec_from_value(a@) == krb_error_body_read_6(vl.skip(i as int), f_pvno.deep_view(), f_msg_type.deep_view(), f_ctime.deep_view(), f_cusec.deep_view(), f_stime.deep_view(), f_susec.deep_view()));
                }
                if i >= n {
                    proof {
                        assert(vl.skip(i as int).len() == 0);
                    }
                    return Err(KerlabError::new(KerlabErrorKind::Parsing, "missing field"));
                }
                proof {
                    assert(vl.skip(i as int)[0] == vl[i as int]);
                    assert(vl[i as int] == cs@[i as int]@);
                }
                let f_error_code = match Tag::<6, Integer>::from_value(&cs[i]) {
                    Ok(x) => x,
                    Err(e) => {
                        return Err(e);
                    },
                };
                proof {
                    lemma_skip_skip(vl, i as int);
                }
                i += 1;
                proof {
                    assert(Self::spec_from_value(a@) == krb_error_body_read_7(vl.skip(i as int), f_pvno.deep_view(), f_msg_type.deep_view(), f_ctime.deep_view(), f_cusec.deep_view(), f_stime.deep_view(), f_susec.deep_view(), f_error_code.deep_view()));
                }
                let mut f_crealm: Option<Tag<7, Realm>> = None;
                if i < n && is_ctx(&cs[i], 7) {
                    proof {
                        assert(vl.skip(i as int)[0] == vl[i as int]);
                        assert(vl[i as int] == cs@[i as int]@);
                    }
                    match Tag::<7, Realm>::from_value(&cs[i]) {
                        Ok(x) => {
                            proof {
                                lemma_skip_skip(vl, i as int);
                            }
                            f_crealm = Some(x);
                            i += 1;
                        },
                        Err(e) => {
                            return Err(e);
                        },
                    }
                } else {
                    proof {
                        if i < n {
                            assert(vl.skip(i as int)[0] == vl[i as int]);
                            assert(vl[i as int] == cs@[i as int]@);
                        }
                    }
                }
                proof {
                    assert(Self::spec_from_value(a@) == krb_error_body_read_8(vl.skip(i as int), f_pvno.deep_view(), f_msg_type.deep_view(), f_ctime.deep_view(), f_cusec.deep_view(), f_stime.deep_view(), f_susec.deep_view(), f_error_code.deep_view(), f_crealm.deep_view()));
                }
                let mut f_cname: Option<Tag<8, PrincipalName>> = None;
                if i < n && is_ctx(&cs[i], 8) {
                    proof {
                        assert(vl.skip(i as int)[0] == vl[i as int]);
                        assert(vl[i as int] == cs@[i as int]@);
                    }
                    match Tag::<8, PrincipalName>::from_value(&cs[i]) {
                        Ok(x) => {
                            proof {
                                lemma_skip_skip(vl, i as int);
                            }
                            f_cname = Some(x);
                            i += 1;
                        },
                        Err(e) => {
                            return Err(e);
                        },
                    }
                } else {
                    proof {
                        if i < n {
                            assert(vl.skip(i as int)[0] == vl[i as int]);
                            assert(vl[i as int] == cs@[i as int]@);
                        }
                    }
                }
                proof {
                    assert(Self::spec_from_value(a@) == krb_error_body_read_9(vl.skip(i as int), f_pvno.deep_view(), f_msg_type.deep_view(), f_ctime.deep_view(), f_cusec.deep_view(), f_stime.deep_view(), f_susec.deep_view(), f_error_code.deep_view(), f_crealm.deep_view(), f_cname.deep_view()));
                }
                if i >= n {
                    proof {
                        assert(vl.skip(i as int).len() == 0);
                    }
                    return Err(KerlabError::new(KerlabErrorKind::Parsing, "missing field"));
                }
                proof {
                    assert(vl.skip(i as int)[0] == vl[i as int]);
                    assert(vl[i as int] == cs@[i as int]@);
                }
                let f_realm = match Tag::<9, Realm>::from_value(&cs[i]) {
                    Ok(x) => x,
                    Err(e) => {
                        return Err(e);
                    },
                };
                proof {
                    lemma_skip_skip(vl, i as int);
                }
                i += 1;
                proof {
                    assert(Self::spec_from_value(a@) == krb_error_body_read_10(vl.skip(i as int), f_pvno.deep_view(), f_msg_type.deep_view(), f_ctime.deep_view(), f_cusec.deep_view(), f_stime.deep_view(), f_susec.deep_view(), f_error_code.deep_view(), f_crealm.deep_view(), f_cname.deep_view(), f_realm.deep_view()));
                }
                if i >= n {
                    proof {
                        assert(vl.skip(i as int).len() == 0);
                    }
                    return Err(KerlabError::new(KerlabErrorKind::Parsing, "missing field"));
                }
                proof {
                    assert(vl.skip(i as int)[0] == vl[i as int]);
                    assert(vl[i as int] == cs@[i as int]@);
                }
                let f_sname = match Tag::<10, PrincipalName>::from_value(&cs[i]) {
                    Ok(x) => x,
                    Err(e) => {
                        return Err(e);
                    },
                };
                proof {
                    lemma_skip_skip(vl, i as int);
                }
                i += 1;
                proof {
                    assert(Self::spec_from_value(a@) == krb_error_body_read_11(vl.skip(i as int), f_pvno.deep_view(), f_msg_type.deep_view(), f_ctime.deep_view(), f_cusec.deep_view(), f_stime.deep_view(), f_susec.deep_view(), f_error_code.deep_view(), f_crealm.deep_view(), f_cname.deep_view(), f_realm.deep_view(), f_sname.deep_view()));
                }
                let mut f_e_text: Option<Tag<11, GeneralString>> = None;
                if i < n && is_ctx(&cs[i], 11) {
                    proof {
                        assert(vl.skip(i as int)[0] == vl[i as int]);
                        assert(vl[i as int] == cs@[i as int]@);
                    }
                    match Tag::<11, GeneralString>::from_value(&cs[i]) {
                        Ok(x) => {
                            proof {
                                lemma_skip_skip(vl, i as int);
                            }
                            f_e_text = Some(x);
                            i += 1;
                        },
                        Err(e) => {
                            return Err(e);
                        },
                    }
                } else {
                    proof {
                        if i < n {
                            assert(vl.skip(i as int)[0] == vl[i as int]);
                            assert(vl[i as int] == cs@[i as int]@);
                        }
                    }
                }
                proof {
                    assert(Self::spec_from_value(a@) == krb_error_body_read_12(vl.skip(i as int), f_pvno.deep_view(), f_msg_type.deep_view(), f_ctime.deep_view(), f_cusec.deep_view(), f_stime.deep_view(), f_susec.deep_view(), f_error_code.deep_view(), f_crealm.deep_view(), f_cname.deep_view(), f_realm.deep_view(), f_sname.deep_view(), f_e_text.deep_view()));
                }
                let mut f_e_data: Option<Tag<12, OctetString>> = None;
                if i < n && is_ctx(&cs[i], 12) {
                    proof {
                        assert(vl.skip(i as int)[0] == vl[i as int]);
                        assert(vl[i as int] == cs@[i as int]@);
                    }
                    match Tag::<12, OctetString>::from_value(&cs[i]) {
                        Ok(x) => {
                            proof {
                                lemma_skip_skip(vl, i as int);
                            }
                            f_e_data = Some(x);
                            i += 1;
                        },
                        Err(e) => {
                            return Err(e);
                        },
                    }
                } else {
                    proof {
                        if i < n {
                            assert(vl.skip(i as int)[0] == vl[i as int]);
                            assert(vl[i as int] == cs@[i as int]@);
                        }
                    }
                }
                proof {
                    assert(Self::spec_from_value(a@) == krb_error_body_read_13(vl.skip(i as int), f_pvno.deep_view(), f_msg_type.deep_view(), f_ctime.deep_view(), f_cusec.deep_view(), f_stime.deep_view(), f_susec.deep_view(), f_error_code.deep_view(), f_crealm.deep_view(), f_cname.deep_view(), f_realm.deep_view(), f_sname.deep_view(), f_e_text.deep_view(), f_e_data.deep_view()));
                }
                if i != n {
                    return Err(KerlabError::new(KerlabErrorKind::Parsing, "unexpected extra field"));
                }
                proof {
                    assert(vl.skip(i as int).len() == 0);
                }
                Ok(KrbErrorBody {
                    pvno: f_pvno,
                    msg_type: f_msg_type,
                    ctime: f_ctime,
                    cusec: f_cusec,
                    stime: f_stime,
                    susec: f_susec,
                    error_code: f_error_code,
                    crealm: f_crealm,
                    cname: f_cname,
                    realm: f_realm,
                    sname: f_sname,
                    e_text: f_e_text,
                    e_data: f_e_data,
                })
            },
            _ => Err(KerlabError::new(KerlabErrorKind::Parsing, "expected a sequence")),
        }
    }

    proof fn lemma_round_trip(v: KrbErrorBodyView) {
        krb_error_body_rt_0(v);
        assert(Self::spec_from_value(Self::spec_to_value(v)) == Some(v));
    }
}

/// Reading no children past the last field yields the view back.
proof fn krb_error_body_rt_13(v: KrbErrorBodyView)
    requires
        KrbErrorBody::view_wf(v),
    ensures
        krb_error_body_read_13(krb_error_body_write_13(v), v.pvno, v.msg_type, v.ctime, v.cusec, v.stime, v.susec, v.error_code, v.crealm, v.cname, v.realm, v.sname, v.e_text, v.e_data) == Some(v),
        forall|j: int| 0 <= j < krb_error_body_write_13(v).len() ==> value_wf(#[trigger] krb_error_body_write_13(v)[j]),
{
    assert(krb_error_body_write_13(v).len() == 0);
    assert((KrbErrorBodyView { pvno: v.pvno, msg_type: v.msg_type, ctime: v.ctime, cusec: v.cusec, stime: v.stime, susec: v.susec, error_code: v.error_code, crealm: v.crealm, cname: v.cname, realm: v.realm, sname: v.sname, e_text: v.e_text, e_data: v.e_data }) =~= v);
}

/// Reading the children written from field 12 on yields the view back.
proof fn krb_error_body_rt_12(v: KrbErrorBodyView)
    requires
        KrbErrorBody::view_wf(v),
    ensures
        krb_error_body_read_12(krb_error_body_write_12(v), v.pvno, v.msg_type, v.ctime, v.cusec, v.stime, v.susec, v.error_code, v.crealm, v.cname, v.realm, v.sname, v.e_text) == Some(v),
        forall|j: int| 0 <= j < krb_error_body_write_12(v).len() ==> value_wf(#[trigger] krb_error_body_write_12(v)[j]),
{
    krb_error_body_rt_13(v);
    match v.e_data {
        Some(x) => {
            Tag::<12, OctetString>::lemma_round_trip(x);
            assert(krb_error_body_write_12(v) == seq![Tag::<12, OctetString>::spec_to_value(x)] + krb_error_body_write_13(v));
            assert(krb_error_body_write_12(v)[0] == Tag::<12, OctetString>::spec_to_value(x));
            assert(has_ctx(krb_error_body_write_12(v)[0], 12));
            lemma_cons_skip(Tag::<12, OctetString>::spec_to_value(x), krb_error_body_write_13(v));
            assert(krb_error_body_read_12(krb_error_body_write_12(v), v.pvno, v.msg_type, v.ctime, v.cusec, v.stime, v.susec, v.error_code, v.crealm, v.cname, v.realm, v.sname, v.e_text) == krb_error_body_read_13(krb_error_body_write_13(v), v.pvno, v.msg_type, v.ctime, v.cusec, v.stime, v.susec, v.error_code, v.crealm, v.cname, v.realm, v.sname, v.e_text, Some(x)));
            assert forall|j: int| 0 <= j < krb_error_body_write_12(v).len() implies value_wf(#[trigger] krb_error_body_write_12(v)[j]) by {
                if j >= 1 {
                    assert(krb_error_body_write_12(v)[j] == krb_error_body_write_13(v)[j - 1]);
                }
            }
        },
        None => {
            assert(krb_error_body_write_12(v) == krb_error_body_write_13(v));
            if krb_error_body_write_13(v).len() > 0 {
                assert(!has_ctx(krb_error_body_write_13(v)[0], 12));
            }
            assert(krb_error_body_read_12(krb_error_body_write_12(v), v.pvno, v.msg_type, v.ctime, v.cusec, v.stime, v.susec, v.error_code, v.crealm, v.cname, v.realm, v.sname, v.e_text) == krb_error_body_read_13(krb_error_body_write_13(v), v.pvno, v.msg_type, v.ctime, v.cusec, v.stime, v.susec, v.error_code, v.crealm, v.cname, v.realm, v.sname, v.e_text, None::<Seq<u8>>));
        },
    }
}

/// Reading the children written from field 11 on yields the view back.
proof fn krb_error_body_rt_11(v: KrbErrorBodyView)
    requires
        KrbErrorBody::view_wf(v),
    ensures
        krb_error_body_read_11(krb_error_body_write_11(v), v.pvno, v.msg_type, v.ctime, v.cusec, v.stime, v.susec, v.error_code, v.crealm, v.cname, v.realm, v.sname) == Some(v),
        forall|j: int| 0 <= j < krb_error_body_write_11(v).len() ==> value_wf(#[trigger] krb_error_body_write_11(v)[j]),
{
    krb_error_body_rt_12(v);
    match v.e_text {
        Some(x) => {
            Tag::<11, GeneralString>::lemma_round_trip(x);
            assert(krb_error_body_write_11(v) == seq![Tag::<11, GeneralString>::spec_to_value(x)] + krb_error_body_write_12(v));
            assert(krb_error_body_write_11(v)[0] == Tag::<11, GeneralString>::spec_to_value(x));
            assert(has_ctx(krb_error_body_write_11(v)[0], 11));
            lemma_cons_skip(Tag::<11, GeneralString>::spec_to_value(x), krb_error_body_write_12(v));
            assert(krb_error_body_read_11(krb_error_body_write_11(v), v.pvno, v.msg_type, v.ctime, v.cusec, v.stime, v.susec, v.error_code, v.crealm, v.cname, v.realm, v.sname) == krb_error_body_read_12(krb_error_body_write_12(v), v.pvno, v.msg_type, v.ctime, v.cusec, v.stime, v.susec, v.error_code, v.crealm, v.cname, v.realm, v.sname, Some(x)));
            assert forall|j: int| 0 <= j < krb_error_body_write_11(v).len() implies value_wf(#[trigger] krb_error_body_write_11(v)[j]) by {
                if j >= 1 {
                    assert(krb_error_body_write_11(v)[j] == krb_error_body_write_12(v)[j - 1]);
                }
            }
        },
        None => {
            assert(krb_error_body_write_11(v) == krb_error_body_write_12(v));
            if krb_error_body_write_12(v).len() > 0 {
                assert(!has_ctx(krb_error_body_write_12(v)[0], 11));
            }
            assert(krb_error_body_read_11(krb_error_body_write_11(v), v.pvno, v.msg_type, v.ctime, v.cusec, v.stime, v.susec, v.error_code, v.crealm, v.cname, v.realm, v.sname) == krb_error_body_read_12(krb_error_body_write_12(v), v.pvno, v.msg_type, v.ctime, v.cusec, v.stime, v.susec, v.error_code, v.crealm, v.cname, v.realm, v.sname, None::<Seq<u8>>));
        },
    }
}

/// Reading the children written from field 10 on yields the view back.
proof fn krb_error_body_rt_10(v: KrbErrorBodyView)
    requires
        KrbErrorBody::view_wf(v),
    ensures
        krb_error_body_read_10(krb_error_body_write_10(v), v.pvno, v.msg_type, v.ctime, v.cusec, v.stime, v.susec, v.error_code, v.crealm, v.cname, v.realm) == Some(v),
        forall|j: int| 0 <= j < krb_error_body_write_10(v).len() ==> value_wf(#[trigger] krb_error_body_write_10(v)[j]),
{
    krb_error_body_rt_11(v);
    Tag::<10, PrincipalName>::lemma_round_trip(v.sname);
    assert(krb_error_body_write_10(v) == seq![Tag::<10, PrincipalName>::spec_to_value(v.sname)] + krb_error_body_write_11(v));
    assert(krb_error_body_write_10(v)[0] == Tag::<10, PrincipalName>::spec_to_value(v.sname));
    assert(has_ctx(krb_error_body_write_10(v)[0], 10));
    lemma_cons_skip(Tag::<10, PrincipalName>::spec_to_value(v.sname), krb_error_body_write_11(v));
    assert(krb_error_body_read_10(krb_error_body_write_10(v), v.pvno, v.msg_type, v.ctime, v.cusec, v.stime, v.susec, v.error_code, v.crealm, v.cname, v.realm) == krb_error_body_read_11(krb_error_body_write_11(v), v.pvno, v.msg_type, v.ctime, v.cusec, v.stime, v.susec, v.error_code, v.crealm, v.cname, v.realm, v.sname));
    assert forall|j: int| 0 <= j < krb_error_body_write_10(v).len() implies value_wf(#[trigger] krb_error_body_write_10(v)[j]) by {
        if j >= 1 {
            assert(krb_error_body_write_10(v)[j] == krb_error_body_write_11(v)[j - 1]);
        }
    }
}

/// Reading the children written from field 9 on yields the view back.
proof fn krb_error_body_rt_9(v: KrbErrorBodyView)
    requires
        KrbErrorBody::view_wf(v),
    ensures
        krb_error_body_read_9(krb_error_body_write_9(v), v.pvno, v.msg_type, v.ctime, v.cusec, v.stime, v.susec, v.error_code, v.crealm, v.cname) == Some(v),
        forall|j: int| 0 <= j < krb_error_body_write_9(v).len() ==> value_wf(#[trigger] krb_error_body_write_9(v)[j]),
{
    krb_error_body_rt_10(v);
    Tag::<9, Realm>::lemma_round_trip(v.realm);
    assert(krb_error_body_write_9(v) == seq![Tag::<9, Realm>::spec_to_value(v.realm)] + krb_error_body_write_10(v));
    assert(krb_error_body_write_9(v)[0] == Tag::<9, Realm>::spec_to_value(v.realm));
    assert(has_ctx(krb_error_body_write_9(v)[0], 9));
    lemma_cons_skip(Tag::<9, Realm>::spec_to_value(v.realm), krb_error_body_write_10(v));
    assert(krb_error_body_read_9(krb_error_body_write_9(v), v.pvno, v.msg_type, v.ctime, v.cusec, v.stime, v.susec, v.error_code, v.crealm, v.cname) == krb_error_body_read_10(krb_error_body_write_10(v), v.pvno, v.msg_type, v.ctime, v.cusec, v.stime, v.susec, v.error_code, v.crealm, v.cname, v.realm));
    assert forall|j: int| 0 <= j < krb_error_body_write_9(v).len() implies value_wf(#[trigger] krb_error_body_write_9(v)[j]) by {
        if j >= 1 {
            assert(krb_error_body_write_9(v)[j] == krb_error_body_write_10(v)[j - 1]);
        }
    }
}

/// Reading the children written from field 8 on yields the view back.
proof fn krb_error_body_rt_8(v: KrbErrorBodyView)
    requires
        KrbErrorBody::view_wf(v),
    ensures
        krb_error_body_read_8(krb_error_body_write_8(v), v.pvno, v.msg_type, v.ctime, v.cusec, v.stime, v.susec, v.error_code, v.crealm) == Some(v),
        forall|j: int| 0 <= j < krb_error_body_write_8(v).len() ==> value_wf(#[trigger] krb_error_body_write_8(v)[j]),
{
    krb_error_body_rt_9(v);
    match v.cname {
        Some(x) => {
            Tag::<8, PrincipalName>::lemma_round_trip(x);
            assert(krb_error_body_write_8(v) == seq![Tag::<8, PrincipalName>::spec_to_value(x)] + krb_error_body_write_9(v));
            assert(krb_error_body_write_8(v)[0] == Tag::<8, PrincipalName>::spec_to_value(x));
            assert(has_ctx(krb_error_body_write_8(v)[0], 8));
            lemma_cons_skip(Tag::<8, PrincipalName>::spec_to_value(x), krb_error_body_write_9(v));
            assert(krb_error_body_read_8(krb_error_body_write_8(v), v.pvno, v.msg_type, v.ctime, v.cusec, v.stime, v.susec, v.error_code, v.crealm) == krb_error_body_read_9(krb_error_body_write_9(v), v.pvno, v.msg_type, v.ctime, v.cusec, v.stime, v.susec, v.error_code, v.crealm, Some(x)));
            assert forall|j: int| 0 <= j < krb_error_body_write_8(v).len() implies value_wf(#[trigger] krb_error_body_write_8(v)[j]) by {
                if j >= 1 {
                    assert(krb_error_body_write_8(v)[j] == krb_error_body_write_9(v)[j - 1]);
                }
            }
        },
        None => {
            assert(krb_error_body_write_8(v) == krb_error_body_write_9(v));
            if krb_error_body_write_9(v).len() > 0 {
                assert(!has_ctx(krb_error_body_write_9(v)[0], 8));
            }
            assert(krb_error_body_read_8(krb_error_body_write_8(v), v.pvno, v.msg_type, v.ctime, v.cusec, v.stime, v.susec, v.error_code, v.crealm) == krb_error_body_read_9(krb_error_body_write_9(v), v.pvno, v.msg_type, v.ctime, v.cusec, v.stime, v.susec, v.error_code, v.crealm, None::<PrincipalNameView>));
        },
    }
}

/// Reading the children written from field 7 on yields the view back.
proof fn krb_error_body_rt_7(v: KrbErrorBodyView)
    requires
        KrbErrorBody::view_wf(v),
    ensures
        krb_error_body_read_7(krb_error_body_write_7(v), v.pvno, v.msg_type, v.ctime, v.cusec, v.stime, v.susec, v.error_code) == Some(v),
        forall|j: int| 0 <= j < krb_error_body_write_7(v).len() ==> value_wf(#[trigger] krb_error_body_write_7(v)[j]),
{
    krb_error_body_rt_8(v);
    match v.crealm {
        Some(x) => {
            Tag::<7, Realm>::lemma_round_trip(x);
            assert(krb_error_body_write_7(v) == seq![Tag::<7, Realm>::spec_to_value(x)] + krb_error_body_write_8(v));
            assert(krb_error_body_write_7(v)[0] == Tag::<7, Realm>::spec_to_value(x));
            assert(has_ctx(krb_error_body_write_7(v)[0], 7));
            lemma_cons_skip(Tag::<7, Realm>::spec_to_value(x), krb_error_body_write_8(v));
            assert(krb_error_body_read_7(krb_error_body_write_7(v), v.pvno, v.msg_type, v.ctime, v.cusec, v.stime, v.susec, v.error_code) == krb_error_body_read_8(krb_error_body_write_8(v), v.pvno, v.msg_type, v.ctime, v.cusec, v.stime, v.susec, v.error_code, Some(x)));
            assert forall|j: int| 0 <= j < krb_error_body_write_7(v).len() implies value_wf(#[trigger] krb_error_body_write_7(v)[j]) by {
                if j >= 1 {
                    assert(krb_error_body_write_7(v)[j] == krb_error_body_write_8(v)[j - 1]);
                }
            }
        },
        None => {
            assert(krb_error_body_write_7(v) == krb_error_body_write_8(v));
            if krb_error_body_write_8(v).len() > 0 {
                assert(!has_ctx(krb_error_body_write_8(v)[0], 7));
            }
            assert(krb_error_body_read_7(krb_error_body_write_7(v), v.pvno, v.msg_type, v.ctime, v.cusec, v.stime, v.susec, v.error_code) == krb_error_body_read_8(krb_error_body_write_8(v), v.pvno, v.msg_type, v.ctime, v.cusec, v.stime, v.susec, v.error_code, None::<Seq<u8>>));
        },
    }
}

/// Reading the children written from field 6 on yields the view back.
proof fn krb_error_body_rt_6(v: KrbErrorBodyView)
    requires
        KrbErrorBody::view_wf(v),
    ensures
        krb_error_body_read_6(krb_error_body_write_6(v), v.pvno, v.msg_type, v.ctime, v.cusec, v.stime, v.susec) == Some(v),
        forall|j: int| 0 <= j < krb_error_body_write_6(v).len() ==> value_wf(#[trigger] krb_error_body_write_6(v)[j]),
{
    krb_error_body_rt_7(v);
    Tag::<6, Integer>::lemma_round_trip(v.error_code);
    assert(krb_error_body_write_6(v) == seq![Tag::<6, Integer>::spec_to_value(v.error_code)] + krb_error_body_write_7(v));
    assert(krb_error_body_write_6(v)[0] == Tag::<6, Integer>::spec_to_value(v.error_code));
    assert(has_ctx(krb_error_body_write_6(v)[0], 6));
    lemma_cons_skip(Tag::<6, Integer>::spec_to_value(v.error_code), krb_error_body_write_7(v));
    assert(krb_error_body_read_6(krb_error_body_write_6(v), v.pvno, v.msg_type, v.ctime, v.cusec, v.stime, v.susec) == krb_error_body_read_7(krb_error_body_write_7(v), v.pvno, v.msg_type, v.ctime, v.cusec, v.stime, v.susec, v.error_code));
    assert forall|j: int| 0 <= j < krb_error_body_write_6(v).len() implies value_wf(#[trigger] krb_error_body_write_6(v)[j]) by {
        if j >= 1 {
            assert(krb_error_body_write_6(v)[j] == krb_error_body_write_7(v)[j - 1]);
        }
    }
}

/// Reading the children written from field 5 on yields the view back.
proof fn krb_error_body_rt_5(v: KrbErrorBodyView)
    requires
        KrbErrorBody::view_wf(v),
    ensures
        krb_error_body_read_5(krb_error_body_write_5(v), v.pvno, v.msg_type, v.ctime, v.cusec, v.stime) == Some(v),
        forall|j: int| 0 <= j < krb_error_body_write_5(v).len() ==> value_wf(#[trigger] krb_error_body_write_5(v)[j]),
{
    krb_error_body_rt_6(v);
    Tag::<5, Integer>::lemma_round_trip(v.susec);
    assert(krb_error_body_write_5(v) == seq![Tag::<5, Integer>::spec_to_value(v.susec)] + krb_error_body_write_6(v));
    assert(krb_error_body_write_5(v)[0] == Tag::<5, Integer>::spec_to_value(v.susec));
    assert(has_ctx(krb_error_body_write_5(v)[0], 5));
    lemma_cons_skip(Tag::<5, Integer>::spec_to_value(v.susec), krb_error_body_write_6(v));
    assert(krb_error_body_read_5(krb_error_body_write_5(v), v.pvno, v.msg_type, v.ctime, v.cusec, v.stime) == krb_error_body_read_6(krb_error_body_write_6(v), v.pvno, v.msg_type, v.ctime, v.cusec, v.stime, v.susec));
    assert forall|j: int| 0 <= j < krb_error_body_write_5(v).len() implies value_wf(#[trigger] krb_error_body_write_5(v)[j]) by {
        if j >= 1 {
            assert(krb_error_body_write_5(v)[j] == krb_error_body_write_6(v)[j - 1]);
        }
    }
}

/// Reading the children written from field 4 on yields the view back.
proof fn krb_error_body_rt_4(v: KrbErrorBodyView)
    requires
        KrbErrorBody::view_wf(v),
    ensures
        krb_error_body_read_4(krb_error_body_write_4(v), v.pvno, v.msg_type, v.ctime, v.cusec) == Some(v),
        forall|j: int| 0 <= j < krb_error_body_write_4(v).len() ==> value_wf(#[trigger] krb_error_body_write_4(v)[j]),
{
    krb_error_body_rt_5(v);
    Tag::<4, KerberosTime>::lemma_round_trip(v.stime);
    assert(krb_error_body_write_4(v) == seq![Tag::<4, KerberosTime>::spec_to_value(v.stime)] + krb_error_body_write_5(v));
    assert(krb_error_body_write_4(v)[0] == Tag::<4, KerberosTime>::spec_to_value(v.stime));
    assert(has_ctx(krb_error_body_write_4(v)[0], 4));
    lemma_cons_skip(Tag::<4, KerberosTime>::spec_to_value(v.stime), krb_error_body_write_5(v));
    assert(krb_error_body_read_4(krb_error_body_write_4(v), v.pvno, v.msg_type, v.ctime, v.cusec) == krb_error_body_read_5(krb_error_body_write_5(v), v.pvno, v.msg_type, v.ctime, v.cusec, v.stime));
    assert forall|j: int| 0 <= j < krb_error_body_write_4(v).len() implies value_wf(#[trigger] krb_error_body_write_4(v)[j]) by {
        if j >= 1 {
            assert(krb_error_body_write_4(v)[j] == krb_error_body_write_5(v)[j - 1]);
        }
    }
}

/// Reading the children written from field 3 on yields the view back.
proof fn krb_error_body_rt_3(v: KrbErrorBodyView)
    requires
        KrbErrorBody::view_wf(v),
    ensures
        krb_error_body_read_3(krb_error_body_write_3(v), v.pvno, v.msg_type, v.ctime) == Some(v),
        forall|j: int| 0 <= j < krb_error_body_write_3(v).len() ==> value_wf(#[trigger] krb_error_body_write_3(v)[j]),
{
    krb_error_body_rt_4(v);
    match v.cusec {
        Some(x) => {
            Tag::<3, Integer>::lemma_round_trip(x);
            assert(krb_error_body_write_3(v) == seq![Tag::<3, Integer>::spec_to_value(x)] + krb_error_body_write_4(v));
            assert(krb_error_body_write_3(v)[0] == Tag::<3, Integer>::spec_to_value(x));
            assert(has_ctx(krb_error_body_write_3(v)[0], 3));
            lemma_cons_skip(Tag::<3, Integer>::spec_to_value(x), krb_error_body_write_4(v));
            assert(krb_error_body_read_3(krb_error_body_write_3(v), v.pvno, v.msg_type, v.ctime) == krb_error_body_read_4(krb_error_body_write_4(v), v.pvno, v.msg_type, v.ctime, Some(x)));
            assert forall|j: int| 0 <= j < krb_error_body_write_3(v).len() implies value_wf(#[trigger] krb_error_body_write_3(v)[j]) by {
                if j >= 1 {
                    assert(krb_error_body_write_3(v)[j] == krb_error_body_write_4(v)[j - 1]);
                }
            }
        },
        None => {
            assert(krb_error_body_write_3(v) == krb_error_body_write_4(v));
            if krb_error_body_write_4(v).len() > 0 {
                assert(!has_ctx(krb_error_body_write_4(v)[0], 3));
            }
            assert(krb_error_body_read_3(krb_error_body_write_3(v), v.pvno, v.msg_type, v.ctime) == krb_error_body_read_4(krb_error_body_write_4(v), v.pvno, v.msg_type, v.ctime, None::<u32>));
        },
    }
}

/// Reading the children written from field 2 on yields the view back.
proof fn krb_error_body_rt_2(v: KrbErrorBodyView)
    requires
        KrbErrorBody::view_wf(v),
    ensures
        krb_error_body_read_2(krb_error_body_write_2(v), v.pvno, v.msg_type) == Some(v),
        forall|j: int| 0 <= j < krb_error_body_write_2(v).len() ==> value_wf(#[trigger] krb_error_body_write_2(v)[j]),
{
    krb_error_body_rt_3(v);
    match v.ctime {
        Some(x) => {
            Tag::<2, KerberosTime>::lemma_round_trip(x);
            assert(krb_error_body_write_2(v) == seq![Tag::<2, KerberosTime>::spec_to_value(x)] + krb_error_body_write_3(v));
            assert(krb_error_body_write_2(v)[0] == Tag::<2, KerberosTime>::spec_to_value(x));
            assert(has_ctx(krb_error_body_write_2(v)[0], 2));
            lemma_cons_skip(Tag::<2, KerberosTime>::spec_to_value(x), krb_error_body_write_3(v));
            assert(krb_error_body_read_2(krb_error_body_write_2(v), v.pvno, v.msg_type) == krb_error_body_read_3(krb_error_body_write_3(v), v.pvno, v.msg_type, Some(x)));
            assert forall|j: int| 0 <= j < krb_error_body_write_2(v).len() implies value_wf(#[trigger] krb_error_body_write_2(v)[j]) by {
                if j >= 1 {
                    assert(krb_error_body_write_2(v)[j] == krb_error_body_write_3(v)[j - 1]);
                }
            }
        },
        None => {
            assert(krb_error_body_write_2(v) == krb_error_body_write_3(v));
            if krb_error_body_write_3(v).len() > 0 {
                assert(!has_ctx(krb_error_body_write_3(v)[0], 2));
            }
            assert(krb_error_body_read_2(krb_error_body_write_2(v), v.pvno, v.msg_type) == krb_error_body_read_3(krb_error_body_write_3(v), v.pvno, v.msg_type, None::<GeneralizedTime>));
        },
    }
}

/// Reading the children written from field 1 on yields the view back.
proof fn krb_error_body_rt_1(v: KrbErrorBodyView)
    requires
        KrbErrorBody::view_wf(v),
    ensures
        krb_error_body_read_1(krb_error_body_write_1(v), v.pvno) == Some(v),
        forall|j: int| 0 <= j < krb_error_body_write_1(v).len() ==> value_wf(#[trigger] krb_error_body_write_1(v)[j]),
{
    krb_error_body_rt_2(v);
    Tag::<1, Integer>::lemma_round_trip(v.msg_type);
    assert(krb_error_body_write_1(v) == seq![Tag::<1, Integer>::spec_to_value(v.msg_type)] + krb_error_body_write_2(v));
    assert(krb_error_body_write_1(v)[0] == Tag::<1, Integer>::spec_to_value(v.msg_type));
    assert(has_ctx(krb_error_body_write_1(v)[0], 1));
    lemma_cons_skip(Tag::<1, Integer>::spec_to_value(v.msg_type), krb_error_body_write_2(v));
    assert(krb_error_body_read_1(krb_error_body_write_1(v), v.pvno) == krb_error_body_read_2(krb_error_body_write_2(v), v.pvno, v.msg_type));
    assert forall|j: int| 0 <= j < krb_error_body_write_1(v).len() implies value_wf(#[trigger] krb_error_body_write_1(v)[j]) by {
        if j >= 1 {
            assert(krb_error_body_write_1(v)[j] == krb_error_body_write_2(v)[j - 1]);
        }
    }
}

/// Reading the children written from field 0 on yields the view back.
proof fn krb_error_body_rt_0(v: KrbErrorBodyView)
    requires
        KrbErrorBody::view_wf(v),
    ensures
        krb_error_body_read_0(krb_error_body_write_0(v)) == Some(v),
        forall|j: int| 0 <= j < krb_error_body_write_0(v).len() ==> value_wf(#[trigger] krb_error_body_write_0(v)[j]),
{
    krb_error_body_rt_1(v);
    Tag::<0, Integer>::lemma_round_trip(v.pvno);
    assert(krb_error_body_write_0(v) == seq![Tag::<0, Integer>::spec_to_value(v.pvno)] + krb_error_body_write_1(v));
    assert(krb_error_body_write_0(v)[0] == Tag::<0, Integer>::spec_to_value(v.pvno));
    assert(has_ctx(krb_error_body_write_0(v)[0], 0));
    lemma_cons_skip(Tag::<0, Integer>::spec_to_value(v.pvno), krb_error_body_write_1(v));
    assert(krb_error_body_read_0(krb_error_body_write_0(v)) == krb_error_body_read_1(krb_error_body_write_1(v), v.pvno));
    assert forall|j: int| 0 <= j < krb_error_body_write_0(v).len() implies value_wf(#[trigger] krb_error_body_write_0(v)[j]) by {
        if j >= 1 {
            assert(krb_error_body_write_0(v)[j] == krb_error_body_write_1(v)[j - 1]);
        }
    }
}

/// A KRB-ERROR: `[APPLICATION 30]` around its body.
pub type KrbError = Application<30, KrbErrorBody>;

} // verus!
