//! The authenticator a client encrypts under the session key to prove it
//! can read the ticket (RFC 1510 section 5.3.2).

use vstd::prelude::*;

verus! {

use crate::asn1::{
    Asn1Data, lemma_concat_nil, lemma_cons_skip, lemma_nil_concat, lemma_skip_skip, lemma_snoc_concat, BitStringView, GeneralString, Integer, OctetString, SequenceOf, SInteger, Tag,
    has_ctx, is_ctx,
};
use crate::base::{KerberosTime, Realm};
use crate::clock::now_utc;
use crate::der::{AsnValue, Asn1Value, GeneralizedTime, value_wf};
use crate::error::{KerlabError, KerlabErrorKind};

use crate::asn1::Application;
use crate::base::{
    AuthorizationData, AuthorizationDataElementView, PrincipalName, PrincipalNameView,
};
use crate::checksum::{Checksum, ChecksumView};
use crate::encryption::{EncryptionKey, EncryptionKeyView};

/// The authenticator body (RFC 1510 section 5.3.2).
#[derive(Debug, Clone, PartialEq, Default)]
pub struct AuthenticatorBody {
    pub authenticator_vno: Tag<0, Integer>,
    pub crealm: Tag<1, Realm>,
    pub cname: Tag<2, PrincipalName>,
    pub cksum: Option<Tag<3, Checksum>>,
    pub cusec: Tag<4, Integer>,
    pub ctime: Tag<5, KerberosTime>,
    pub subkey: Option<Tag<6, EncryptionKey>>,
    pub seq_number: Option<Tag<7, Integer>>,
    pub authorization_data: Option<Tag<8, AuthorizationData>>,
}

/// The deep view of [`AuthenticatorBody`].
#[verifier::ext_equal]
pub struct AuthenticatorBodyView {
    pub authenticator_vno: u32,
    pub crealm: Seq<u8>,
    pub cname: PrincipalNameView,
    pub cksum: Option<ChecksumView>,
    pub cusec: u32,
    pub ctime: GeneralizedTime,
    pub subkey: Option<EncryptionKeyView>,
    pub seq_number: Option<u32>,
    pub authorization_data: Option<Seq<AuthorizationDataElementView>>,
}

impl DeepView for AuthenticatorBody {
    type V = AuthenticatorBodyView;

    open spec fn deep_view(&self) -> AuthenticatorBodyView {
        AuthenticatorBodyView {
            authenticator_vno: self.authenticator_vno.deep_view(),
            crealm: self.crealm.deep_view(),
            cname: self.cname.deep_view(),
            cksum: self.cksum.deep_view(),
            cusec: self.cusec.deep_view(),
            ctime: self.ctime.deep_view(),
            subkey: self.subkey.deep_view(),
            seq_number: self.seq_number.deep_view(),
            authorization_data: self.authorization_data.deep_view(),
        }
    }
}

/// The children a [`AuthenticatorBody`] writes from its field 0 on.
pub open spec fn authenticator_body_write_0(v: AuthenticatorBodyView) -> Seq<AsnValue> {
    seq![Tag::<0, Integer>::spec_to_value(v.authenticator_vno)] + authenticator_body_write_1(v)
}

/// The children a [`AuthenticatorBody`] writes from its field 1 on.
pub open spec fn authenticator_body_write_1(v: AuthenticatorBodyView) -> Seq<AsnValue> {
    seq![Tag::<1, Realm>::spec_to_value(v.crealm)] + authenticator_body_write_2(v)
}

/// The children a [`AuthenticatorBody`] writes from its field 2 on.
pub open spec fn authenticator_body_write_2(v: AuthenticatorBodyView) -> Seq<AsnValue> {
    seq![Tag::<2, PrincipalName>::spec_to_value(v.cname)] + authenticator_body_write_3(v)
}

/// The children a [`AuthenticatorBody`] writes from its field 3 on.
pub open spec fn authenticator_body_write_3(v: AuthenticatorBodyView) -> Seq<AsnValue> {
    match v.cksum {
        Some(x) => seq![Tag::<3, Checksum>::spec_to_value(x)] + authenticator_body_write_4(v),
        None => authenticator_body_write_4(v),
    }
}

/// The children a [`AuthenticatorBody`] writes from its field 4 on.
pub open spec fn authenticator_body_write_4(v: AuthenticatorBodyView) -> Seq<AsnValue> {
    seq![Tag::<4, Integer>::spec_to_value(v.cusec)] + authenticator_body_write_5(v)
}

/// The children a [`AuthenticatorBody`] writes from its field 5 on.
pub open spec fn authenticator_body_write_5(v: AuthenticatorBodyView) -> Seq<AsnValue> {
    seq![Tag::<5, KerberosTime>::spec_to_value(v.ctime)] + authenticator_body_write_6(v)
}

/// The children a [`AuthenticatorBody`] writes from its field 6 on.
pub open spec fn authenticator_body_write_6(v: AuthenticatorBodyView) -> Seq<AsnValue> {
    match v.subkey {
        Some(x) => seq![Tag::<6, EncryptionKey>::spec_to_value(x)] + authenticator_body_write_7(v),
        None => authenticator_body_write_7(v),
    }
}

/// The children a [`AuthenticatorBody`] writes from its field 7 on.
pub open spec fn authenticator_body_write_7(v: AuthenticatorBodyView) -> Seq<AsnValue> {
    match v.seq_number {
        Some(x) => seq![Tag::<7, Integer>::spec_to_value(x)] + authenticator_body_write_8(v),
        None => authenticator_body_write_8(v),
    }
}

/// The children a [`AuthenticatorBody`] writes from its field 8 on.
pub open spec fn authenticator_body_write_8(v: AuthenticatorBodyView) -> Seq<AsnValue> {
    match v.authorization_data {
        Some(x) => seq![Tag::<8, AuthorizationData>::spec_to_value(x)] + authenticator_body_write_9(v),
        None => authenticator_body_write_9(v),
    }
}

/// The children a [`AuthenticatorBody`] writes past its last field: none.
pub open spec fn authenticator_body_write_9(v: AuthenticatorBodyView) -> Seq<AsnValue> {
    Seq::empty()
}

/// Read the fields of a [`AuthenticatorBody`] from field 0 on.
pub open spec fn authenticator_body_read_0(cs: Seq<AsnValue>) -> Option<AuthenticatorBodyView> {
    if cs.len() > 0 {
        match Tag::<0, Integer>::spec_from_value(cs[0]) {
            Some(f) => authenticator_body_read_1(cs.skip(1), f),
            None => None,
        }
    } else {
        None
    }
}

/// Read the fields of a [`AuthenticatorBody`] from field 1 on.
pub open spec fn authenticator_body_read_1(cs: Seq<AsnValue>, f_authenticator_vno: u32) -> Option<AuthenticatorBodyView> {
    if cs.len() > 0 {
        match Tag::<1, Realm>::spec_from_value(cs[0]) {
            Some(f) => authenticator_body_read_2(cs.skip(1), f_authenticator_vno, f),
            None => None,
        }
    } else {
        None
    }
}

/// Read the fields of a [`AuthenticatorBody`] from field 2 on.
pub open spec fn authenticator_body_read_2(cs: Seq<AsnValue>, f_authenticator_vno: u32, f_crealm: Seq<u8>) -> Option<AuthenticatorBodyView> {
    if cs.len() > 0 {
        match Tag::<2, PrincipalName>::spec_from_value(cs[0]) {
            Some(f) => authenticator_body_read_3(cs.skip(1), f_authenticator_vno, f_crealm, f),
            None => None,
        }
    } else {
        None
    }
}

/// Read the fields of a [`AuthenticatorBody`] from field 3 on.
pub open spec fn authenticator_body_read_3(cs: Seq<AsnValue>, f_authenticator_vno: u32, f_crealm: Seq<u8>, f_cname: PrincipalNameView) -> Option<AuthenticatorBodyView> {
    if cs.len() > 0 && has_ctx(cs[0], 3) {
        match Tag::<3, Checksum>::spec_from_value(cs[0]) {
            Some(f) => authenticator_body_read_4(cs.skip(1), f_authenticator_vno, f_crealm, f_cname, Some(f)),
            None => None,
        }
    } else {
        authenticator_body_read_4(cs, f_authenticator_vno, f_crealm, f_cname, None::<ChecksumView>)
    }
}

/// Read the fields of a [`AuthenticatorBody`] from field 4 on.
pub open spec fn authenticator_body_read_4(cs: Seq<AsnValue>, f_authenticator_vno: u32, f_crealm: Seq<u8>, f_cname: PrincipalNameView, f_cksum: Option<ChecksumView>) -> Option<AuthenticatorBodyView> {
    if cs.len() > 0 {
        match Tag::<4, Integer>::spec_from_value(cs[0]) {
            Some(f) => authenticator_body_read_5(cs.skip(1), f_authenticator_vno, f_crealm, f_cname, f_cksum, f),
            None => None,
        }
    } else {
        None
    }
}

/// Read the fields of a [`AuthenticatorBody`] from field 5 on.
pub open spec fn authenticator_body_read_5(cs: Seq<AsnValue>, f_authenticator_vno: u32, f_crealm: Seq<u8>, f_cname: PrincipalNameView, f_cksum: Option<ChecksumView>, f_cusec: u32) -> Option<AuthenticatorBodyView> {
    if cs.len() > 0 {
        match Tag::<5, KerberosTime>::spec_from_value(cs[0]) {
            Some(f) => authenticator_body_read_6(cs.skip(1), f_authenticator_vno, f_crealm, f_cname, f_cksum, f_cusec, f),
            None => None,
        }
    } else {
        None
    }
}

/// Read the fields of a [`AuthenticatorBody`] from field 6 on.
pub open spec fn authenticator_body_read_6(cs: Seq<AsnValue>, f_authenticator_vno: u32, f_crealm: Seq<u8>, f_cname: PrincipalNameView, f_cksum: Option<ChecksumView>, f_cusec: u32, f_ctime: GeneralizedTime) -> Option<AuthenticatorBodyView> {
    if cs.len() > 0 && has_ctx(cs[0], 6) {
        match Tag::<6, EncryptionKey>::spec_from_value(cs[0]) {
            Some(f) => authenticator_body_read_7(cs.skip(1), f_authenticator_vno, f_crealm, f_cname, f_cksum, f_cusec, f_ctime, Some(f)),
            None => None,
        }
    } else {
        authenticator_body_read_7(cs, f_authenticator_vno, f_crealm, f_cname, f_cksum, f_cusec, f_ctime, None::<EncryptionKeyView>)
    }
}

/// Read the fields of a [`AuthenticatorBody`] from field 7 on.
pub open spec fn authenticator_body_read_7(cs: Seq<AsnValue>, f_authenticator_vno: u32, f_crealm: Seq<u8>, f_cname: PrincipalNameView, f_cksum: Option<ChecksumView>, f_cusec: u32, f_ctime: GeneralizedTime, f_subkey: Option<EncryptionKeyView>) -> Option<AuthenticatorBodyView> {
    if cs.len() > 0 && has_ctx(cs[0], 7) {
        match Tag::<7, Integer>::spec_from_value(cs[0]) {
            Some(f) => authenticator_body_read_8(cs.skip(1), f_authenticator_vno, f_crealm, f_cname, f_cksum, f_cusec, f_ctime, f_subkey, Some(f)),
            None => None,
        }
    } else {
        authenticator_body_read_8(cs, f_authenticator_vno, f_crealm, f_cname, f_cksum, f_cusec, f_ctime, f_subkey, None::<u32>)
    }
}

/// Read the fields of a [`AuthenticatorBody`] from field 8 on.
pub open spec fn authenticator_body_read_8(cs: Seq<AsnValue>, f_authenticator_vno: u32, f_crealm: Seq<u8>, f_cname: PrincipalNameView, f_cksum: Option<ChecksumView>, f_cusec: u32, f_ctime: GeneralizedTime, f_subkey: Option<EncryptionKeyView>, f_seq_number: Option<u32>) -> Option<AuthenticatorBodyView> {
    if cs.len() > 0 && has_ctx(cs[0], 8) {
        match Tag::<8, AuthorizationData>::spec_from_value(cs[0]) {
            Some(f) => authenticator_body_read_9(cs.skip(1), f_authenticator_vno, f_crealm, f_cname, f_cksum, f_cusec, f_ctime, f_subkey, f_seq_number, Some(f)),
            None => None,
        }
    } else {
        authenticator_body_read_9(cs, f_authenticator_vno, f_crealm, f_cname, f_cksum, f_cusec, f_ctime, f_subkey, f_seq_number, None::<Seq<AuthorizationDataElementView>>)
    }
}

/// Past the last field of a [`AuthenticatorBody`]: the children must be spent.
pub open spec fn authenticator_body_read_9(cs: Seq<AsnValue>, f_authenticator_vno: u32, f_crealm: Seq<u8>, f_cname: PrincipalNameView, f_cksum: Option<ChecksumView>, f_cusec: u32, f_ctime: GeneralizedTime, f_subkey: Option<EncryptionKeyView>, f_seq_number: Option<u32>, f_authorization_data: Option<Seq<AuthorizationDataElementView>>) -> Option<AuthenticatorBodyView> {
    if cs.len() == 0 {
        Some(AuthenticatorBodyView {
            authenticator_vno: f_authenticator_vno,
            crealm: f_crealm,
            cname: f_cname,
            cksum: f_cksum,
            cusec: f_cusec,
            ctime: f_ctime,
            subkey: f_subkey,
            seq_number: f_seq_number,
            authorization_data: f_authorization_data,
        })
    } else {
        None
    }
}

impl Asn1Data for AuthenticatorBody {
    open spec fn view_wf(v: AuthenticatorBodyView) -> bool {
        Tag::<0, Integer>::view_wf(v.authenticator_vno)
            && Tag::<1, Realm>::view_wf(v.crealm)
            && Tag::<2, PrincipalName>::view_wf(v.cname)
            && (match v.cksum {
            Some(x) => Tag::<3, Checksum>::view_wf(x),
            None => true,
        })
            && Tag::<4, Integer>::view_wf(v.cusec)
            && Tag::<5, KerberosTime>::view_wf(v.ctime)
            && (match v.subkey {
            Some(x) => Tag::<6, EncryptionKey>::view_wf(x),
            None => true,
        })
            && (match v.seq_number {
            Some(x) => Tag::<7, Integer>::view_wf(x),
            None => true,
        })
            && (match v.authorization_data {
            Some(x) => Tag::<8, AuthorizationData>::view_wf(x),
            None => true,
        })
    }

    open spec fn spec_to_value(v: AuthenticatorBodyView) -> AsnValue {
        AsnValue::Sequence(authenticator_body_write_0(v))
    }

    open spec fn spec_from_value(a: AsnValue) -> Option<AuthenticatorBodyView> {
        match a {
            AsnValue::Sequence(cs) => authenticator_body_read_0(cs),
            _ => None,
        }
    }

    #[verifier::rlimit(100)]
    fn to_value(&self) -> (r: Asn1Value) {
        let ghost v = self.deep_view();
        let mut children: Vec<Asn1Value> = Vec::new();
        let ghost mut gc: Seq<AsnValue> = Seq::empty();
        proof {
            assert(crate::der::view_list(children@) =~= gc);
            lemma_nil_concat(authenticator_body_write_0(v));
            assert(authenticator_body_write_0(v) == gc + authenticator_body_write_0(v));
        }
        let ghost ch_prev0 = children@;
        let ghost gc_prev0 = gc;
        children.push(self.authenticator_vno.to_value());
        proof {
            assert(children@.drop_last() =~= ch_prev0);
            gc = gc.push(Tag::<0, Integer>::spec_to_value(self.authenticator_vno.deep_view()));
            assert(crate::der::view_list(children@) == gc);
            assert(authenticator_body_write_0(v) == seq![Tag::<0, Integer>::spec_to_value(self.authenticator_vno.deep_view())] + authenticator_body_write_1(v));
            lemma_snoc_concat(gc_prev0, Tag::<0, Integer>::spec_to_value(self.authenticator_vno.deep_view()), authenticator_body_write_1(v));
            assert(authenticator_body_write_0(v) == gc + authenticator_body_write_1(v));
        }
        let ghost ch_prev1 = children@;
        let ghost gc_prev1 = gc;
        children.push(self.crealm.to_value());
        proof {
            assert(children@.drop_last() =~= ch_prev1);
            gc = gc.push(Tag::<1, Realm>::spec_to_value(self.crealm.deep_view()));
            assert(crate::der::view_list(children@) == gc);
            assert(authenticator_body_write_1(v) == seq![Tag::<1, Realm>::spec_to_value(self.crealm.deep_view())] + authenticator_body_write_2(v));
            lemma_snoc_concat(gc_prev1, Tag::<1, Realm>::spec_to_value(self.crealm.deep_view()), authenticator_body_write_2(v));
            assert(authenticator_body_write_0(v) == gc + authenticator_body_write_2(v));
        }
        let ghost ch_prev2 = children@;
        let ghost gc_prev2 = gc;
        children.push(self.cname.to_value());
        proof {
            assert(children@.drop_last() =~= ch_prev2);
            gc = gc.push(Tag::<2, PrincipalName>::spec_to_value(self.cname.deep_view()));
            assert(crate::der::view_list(children@) == gc);
            assert(authenticator_body_write_2(v) == seq![Tag::<2, PrincipalName>::spec_to_value(self.cname.deep_view())] + authenticator_body_write_3(v));
            lemma_snoc_concat(gc_prev2, Tag::<2, PrincipalName>::spec_to_value(self.cname.deep_view()), authenticator_body_write_3(v));
            assert(authenticator_body_write_0(v) == gc + authenticator_body_write_3(v));
        }
        match &self.cksum {
            Some(x) => {
                let ghost ch_prev = children@;
                let ghost gc_prev = gc;
                children.push(x.to_value());
                proof {
                    assert(children@.drop_last() =~= ch_prev);
                    gc = gc.push(Tag::<3, Checksum>::spec_to_value(x.deep_view()));
                    assert(crate::der::view_list(children@) == gc);
                    assert(authenticator_body_write_3(v) == seq![Tag::<3, Checksum>::spec_to_value(x.deep_view())] + authenticator_body_write_4(v));
                    lemma_snoc_concat(gc_prev, Tag::<3, Checksum>::spec_to_value(x.deep_view()), authenticator_body_write_4(v));
                    assert(authenticator_body_write_0(v) == gc + authenticator_body_write_4(v));
                }
            },
            None => {
                proof {
                    assert(authenticator_body_write_3(v) == authenticator_body_write_4(v));
                    assert(authenticator_body_write_0(v) == gc + authenticator_body_write_4(v));
                }
            },
        }
        let ghost ch_prev4 = children@;
        let ghost gc_prev4 = gc;
        children.push(self.cusec.to_value());
        proof {
            assert(children@.drop_last() =~= ch_prev4);
            gc = gc.push(Tag::<4, Integer>::spec_to_value(self.cusec.deep_view()));
            assert(crate::der::view_list(children@) == gc);
            assert(authenticator_body_write_4(v) == seq![Tag::<4, Integer>::spec_to_value(self.cusec.deep_view())] + authenticator_body_write_5(v));
            lemma_snoc_concat(gc_prev4, Tag::<4, Integer>::spec_to_value(self.cusec.deep_view()), authenticator_body_write_5(v));
            assert(authenticator_body_write_0(v) == gc + authenticator_body_write_5(v));
        }
        let ghost ch_prev5 = children@;
        let ghost gc_prev5 = gc;
        children.push(self.ctime.to_value());
        proof {
            assert(children@.drop_last() =~= ch_prev5);
            gc = gc.push(Tag::<5, KerberosTime>::spec_to_value(self.ctime.deep_view()));
            assert(crate::der::view_list(children@) == gc);
            assert(authenticator_body_write_5(v) == seq![Tag::<5, KerberosTime>::spec_to_value(self.ctime.deep_view())] + authenticator_body_write_6(v));
            lemma_snoc_concat(gc_prev5, Tag::<5, KerberosTime>::spec_to_value(self.ctime.deep_view()), authenticator_body_write_6(v));
            assert(authenticator_body_write_0(v) == gc + authenticator_body_write_6(v));
        }
        match &self.subkey {
            Some(x) => {
                let ghost ch_prev = children@;
                let ghost gc_prev = gc;
                children.push(x.to_value());
                proof {
                    assert(children@.drop_last() =~= ch_prev);
                    gc = gc.push(Tag::<6, EncryptionKey>::spec_to_value(x.deep_view()));
                    assert(crate::der::view_list(children@) == gc);
                    assert(authenticator_body_write_6(v) == seq![Tag::<6, EncryptionKey>::spec_to_value(x.deep_view())] + authenticator_body_write_7(v));
                    lemma_snoc_concat(gc_prev, Tag::<6, EncryptionKey>::spec_to_value(x.deep_view()), authenticator_body_write_7(v));
                    assert(authenticator_body_write_0(v) == gc + authenticator_body_write_7(v));
                }
            },
            None => {
                proof {
                    assert(authenticator_body_write_6(v) == authenticator_body_write_7(v));
                    assert(authenticator_body_write_0(v) == gc + authenticator_body_write_7(v));
                }
            },
        }
        match &self.seq_number {
            Some(x) => {
                let ghost ch_prev = children@;
                let ghost gc_prev = gc;
                children.push(x.to_value());
                proof {
                    assert(children@.drop_last() =~= ch_prev);
                    gc = gc.push(Tag::<7, Integer>::spec_to_value(x.deep_view()));
                    assert(crate::der::view_list(children@) == gc);
                    assert(authenticator_body_write_7(v) == seq![Tag::<7, Integer>::spec_to_value(x.deep_view())] + authenticator_body_write_8(v));
                    lemma_snoc_concat(gc_prev, Tag::<7, Integer>::spec_to_value(x.deep_view()), authenticator_body_write_8(v));
                    assert(authenticator_body_write_0(v) == gc + authenticator_body_write_8(v));
                }
            },
            None => {
                proof {
                    assert(authenticator_body_write_7(v) == authenticator_body_write_8(v));
                    assert(authenticator_body_write_0(v) == gc + authenticator_body_write_8(v));
                }
            },
        }
        match &self.authorization_data {
            Some(x) => {
                let ghost ch_prev = children@;
                let ghost gc_prev = gc;
                children.push(x.to_value());
                proof {
                    assert(children@.drop_last() =~= ch_prev);
                    gc = gc.push(Tag::<8, AuthorizationData>::spec_to_value(x.deep_view()));
                    assert(crate::der::view_list(children@) == gc);
                    assert(authenticator_body_write_8(v) == seq![Tag::<8, AuthorizationData>::spec_to_value(x.deep_view())] + authenticator_body_write_9(v));
                    lemma_snoc_concat(gc_prev, Tag::<8, AuthorizationData>::spec_to_value(x.deep_view()), authenticator_body_write_9(v));
                    assert(authenticator_body_write_0(v) == gc + authenticator_body_write_9(v));
                }
            },
            None => {
                proof {
                    assert(authenticator_body_write_8(v) == authenticator_body_write_9(v));
                    assert(authenticator_body_write_0(v) == gc + authenticator_body_write_9(v));
                }
            },
        }
        proof {
            assert(authenticator_body_write_9(v) == Seq::<AsnValue>::empty());
            lemma_concat_nil(gc);
            assert(AsnValue::Sequence(gc) == Self::spec_to_value(v));
        }
        Asn1Value::Sequence(children)
    }

    #[verifier::rlimit(100)]
    fn from_value(a: &Asn1Value) -> (r: Result<Self, KerlabError>) {
        match a {
            Asn1Value::Sequence(cs) => {
                proof {
                    crate::der::lemma_view_list(cs@);
                }
                let ghost vl = crate::der::view_list(cs@);
                proof {
                    assert(vl.skip(0) =~= vl);
                    assert(Self::spec_from_value(a@) == authenticator_body_read_0(vl.skip(0)));
                }
                let n = cs.len();
                let mut i: usize = 0;
                if i >= n {
                    proof {
                        assert(vl.skip(i as int).len() == 0);
                    }
                    return Err(KerlabError::new(KerlabErrorKind::Parsing, "missing field"));
                }
                proof {
                    assert(vl.skip(i as int)[0] == vl[i as int]);
                    assert(vl[i as int] == cs@[i as int]@);
                }
                let f_authenticator_vno = match Tag::<0, Integer>::from_value(&cs[i]) {
                    Ok(x) => x,
                    Err(e) => {
                        return Err(e);
                    },
                };
                proof {
                    lemma_skip_skip(vl, i as int);
                }
                i += 1;
                proof {
                    assert(Self::spec_from_value(a@) == authenticator_body_read_1(vl.skip(i as int), f_authenticator_vno.deep_view()));
                }
                if i >= n {
                    proof {
                        assert(vl.skip(i as int).len() == 0);
                    }
                    return Err(KerlabError::new(KerlabErrorKind::Parsing, "missing field"));
                }
                proof {
                    assert(vl.skip(i as int)[0] == vl[i as int]);
                    assert(vl[i as int] == cs@[i as int]@);
                }
                let f_crealm = match Tag::<1, Realm>::from_value(&cs[i]) {
                    Ok(x) => x,
                    Err(e) => {
                        return Err(e);
                    },
                };
                proof {
                    lemma_skip_skip(vl, i as int);
                }
                i += 1;
                proof {
                    assert(Self::spec_from_value(a@) == authenticator_body_read_2(vl.skip(i as int), f_authenticator_vno.deep_view(), f_crealm.deep_view()));
                }
                if i >= n {
                    proof {
                        assert(vl.skip(i as int).len() == 0);
                    }
                    return Err(KerlabError::new(KerlabErrorKind::Parsing, "missing field"));
                }
                proof {
                    assert(vl.skip(i as int)[0] == vl[i as int]);
                    assert(vl[i as int] == cs@[i as int]@);
                }
                let f_cname = match Tag::<2, PrincipalName>::from_value(&cs[i]) {
                    Ok(x) => x,
                    Err(e) => {
                        return Err(e);
                    },
                };
                proof {
                    lemma_skip_skip(vl, i as int);
                }
                i += 1;
                proof {
                    assert(Self::spec_from_value(a@) == authenticator_body_read_3(vl.skip(i as int), f_authenticator_vno.deep_view(), f_crealm.deep_view(), f_cname.deep_view()));
                }
                let mut f_cksum: Option<Tag<3, Checksum>> = None;
                if i < n && is_ctx(&cs[i], 3) {
                    proof {
                        assert(vl.skip(i as int)[0] == vl[i as int]);
                        assert(vl[i as int] == cs@[i as int]@);
                    }
                    match Tag::<3, Checksum>::from_value(&cs[i]) {
                        Ok(x) => {
                            proof {
                                lemma_skip_skip(vl, i as int);
                            }
                            f_cksum = Some(x);
                            i += 1;
                        },
                        Err(e) => {
                            return Err(e);
                        },
                    }
                } else {
                    proof {
                        if i < n {
                            assert(vl.skip(i as int)[0] == vl[i as int]);
                            assert(vl[i as int] == cs@[i as int]@);
                        }
                    }
                }
                proof {
                    assert(Self::spec_from_value(a@) == authenticator_body_read_4(vl.skip(i as int), f_authenticator_vno.deep_view(), f_crealm.deep_view(), f_cname.deep_view(), f_cksum.deep_view()));
                }
                if i >= n {
                    proof {
                        assert(vl.skip(i as int).len() == 0);
                    }
                    return Err(KerlabError::new(KerlabErrorKind::Parsing, "missing field"));
                }
                proof {
                    assert(vl.skip(i as int)[0] == vl[i as int]);
                    assert(vl[i as int] == cs@[i as int]@);
                }
                let f_cusec = match Tag::<4, Integer>::from_value(&cs[i]) {
                    Ok(x) => x,
                    Err(e) => {
                        return Err(e);
                    },
                };
                proof {
                    lemma_skip_skip(vl, i as int);
                }
                i += 1;
                proof {
                    assert(Self::spec_from_value(a@) == authenticator_body_read_5(vl.skip(i as int), f_authenticator_vno.deep_view(), f_crealm.deep_view(), f_cname.deep_view(), f_cksum.deep_view(), f_cusec.deep_view()));
                }
                if i >= n {
                    proof {
                        assert(vl.skip(i as int).len() == 0);
                    }
                    return Err(KerlabError::new(KerlabErrorKind::Parsing, "missing field"));
                }
                proof {
                    assert(vl.skip(i as int)[0] == vl[i as int]);
                    assert(vl[i as int] == cs@[i as int]@);
                }
                let f_ctime = match Tag::<5, KerberosTime>::from_value(&cs[i]) {
                    Ok(x) => x,
                    Err(e) => {
                        return Err(e);
                    },
                };
                proof {
                    lemma_skip_skip(vl, i as int);
                }
                i += 1;
                proof {
                    assert(Self::spec_from_value(a@) == authenticator_body_read_6(vl.skip(i as int), f_authenticator_vno.deep_view(), f_crealm.deep_view(), f_cname.deep_view(), f_cksum.deep_view(), f_cusec.deep_view(), f_ctime.deep_view()));
                }
                let mut f_subkey: Option<Tag<6, EncryptionKey>> = None;
                if i < n && is_ctx(&cs[i], 6) {
                    proof {
                        assert(vl.skip(i as int)[0] == vl[i as int]);
                        assert(vl[i as int] == cs@[i as int]@);
                    }
                    match Tag::<6, EncryptionKey>::from_value(&cs[i]) {
                        Ok(x) => {
                            proof {
                                lemma_skip_skip(vl, i as int);
                            }
                            f_subkey = Some(x);
                            i += 1;
                        },
                        Err(e) => {
                            return Err(e);
                        },
                    }
                } else {
                    proof {
                        if i < n {
                            assert(vl.skip(i as int)[0] == vl[i as int]);
                            assert(vl[i as int] == cs@[i as int]@);
                        }
                    }
                }
                proof {
                    assert(Self::spec_from_value(a@) == authenticator_body_read_7(vl.skip(i as int), f_authenticator_vno.deep_view(), f_crealm.deep_view(), f_cname.deep_view(), f_cksum.deep_view(), f_cusec.deep_view(), f_ctime.deep_view(), f_subkey.deep_view()));
                }
                let mut f_seq_number: Option<Tag<7, Integer>> = None;
                if i < n && is_ctx(&cs[i], 7) {
                    proof {
                        assert(vl.skip(i as int)[0] == vl[i as int]);
                        assert(vl[i as int] == cs@[i as int]@);
                    }
                    match Tag::<7, Integer>::from_value(&cs[i]) {
                        Ok(x) => {
                            proof {
                                lemma_skip_skip(vl, i as int);
                            }
                            f_seq_number = Some(x);
                            i += 1;
                        },
                        Err(e) => {
                            return Err(e);
                        },
                    }
                } else {
                    proof {
                        if i < n {
                            assert(vl.skip(i as int)[0] == vl[i as int]);
                            assert(vl[i as int] == cs@[i as int]@);
                        }
                    }
                }
                proof {
                    assert(Self::spec_from_value(a@) == authenticator_body_read_8(vl.skip(i as int), f_authenticator_vno.deep_view(), f_crealm.deep_view(), f_cname.deep_view(), f_cksum.deep_view(), f_cusec.deep_view(), f_ctime.deep_view(), f_subkey.deep_view(), f_seq_number.deep_view()));
                }
                let mut f_authorization_data: Option<Tag<8, AuthorizationData>> = None;
                if i < n && is_ctx(&cs[i], 8) {
                    proof {
                        assert(vl.skip(i as int)[0] == vl[i as int]);
                        assert(vl[i as int] == cs@[i as int]@);
                    }
                    match Tag::<8, AuthorizationData>::from_value(&cs[i]) {
                        Ok(x) => {
                            proof {
                                lemma_skip_skip(vl, i as int);
                            }
                            f_authorization_data = Some(x);
                            i += 1;
                        },
                        Err(e) => {
                            return Err(e);
                        },
                    }
                } else {
                    proof {
                        if i < n {
                            assert(vl.skip(i as int)[0] == vl[i as int]);
                            assert(vl[i as int] == cs@[i as int]@);
                        }
                    }
                }
                proof {
                    assert(Self::spec_from_value(a@) == authenticator_body_read_9(vl.skip(i as int), f_authenticator_vno.deep_view(), f_crealm.deep_view(), f_cname.deep_view(), f_cksum.deep_view(), f_cusec.deep_view(), f_ctime.deep_view(), f_subkey.deep_view(), f_seq_number.deep_view(), f_authorization_data.deep_view()));
                }
                if i != n {
                    return Err(KerlabError::new(KerlabErrorKind::Parsing, "unexpected extra field"));
                }
                proof {
                    assert(vl.skip(i as int).len() == 0);
                }
                Ok(AuthenticatorBody {
                    authenticator_vno: f_authenticator_vno,
                    crealm: f_crealm,
                    cname: f_cname,
                    cksum: f_cksum,
                    cusec: f_cusec,
                    ctime: f_ctime,
                    subkey: f_subkey,
                    seq_number: f_seq_number,
                    authorization_data: f_authorization_data,
                })
            },
            _ => Err(KerlabError::new(KerlabErrorKind::Parsing, "expected a sequence")),
        }
    }

    proof fn lemma_round_trip(v: AuthenticatorBodyView) {
        authenticator_body_rt_0(v);
        assert(Self::spec_from_value(Self::spec_to_value(v)) == Some(v));
    }
}

/// Reading no children past the last field yields the view back.
proof fn authenticator_body_rt_9(v: AuthenticatorBodyView)
    requires
        AuthenticatorBody::view_wf(v),
    ensures
        authenticator_body_read_9(authenticator_body_write_9(v), v.authenticator_vno, v.crealm, v.cname, v.cksum, v.cusec, v.ctime, v.subkey, v.seq_number, v.authorization_data) == Some(v),
        forall|j: int| 0 <= j < authenticator_body_write_9(v).len() ==> value_wf(#[trigger] authenticator_body_write_9(v)[j]),
{
    assert(authenticator_body_write_9(v).len() == 0);
    assert((AuthenticatorBodyView { authenticator_vno: v.authenticator_vno, crealm: v.crealm, cname: v.cname, cksum: v.cksum, cusec: v.cusec, ctime: v.ctime, subkey: v.subkey, seq_number: v.seq_number, authorization_data: v.authorization_data }) =~= v);
}

/// Reading the children written from field 8 on yields the view back.
proof fn authenticator_body_rt_8(v: AuthenticatorBodyView)
    requires
        AuthenticatorBody::view_wf(v),
    ensures
        authenticator_body_read_8(authenticator_body_write_8(v), v.authenticator_vno, v.crealm, v.cname, v.cksum, v.cusec, v.ctime, v.subkey, v.seq_number) == Some(v),
        forall|j: int| 0 <= j < authenticator_body_write_8(v).len() ==> value_wf(#[trigger] authenticator_body_write_8(v)[j]),
{
    authenticator_body_rt_9(v);
    match v.authorization_data {
        Some(x) => {
            Tag::<8, AuthorizationData>::lemma_round_trip(x);
            assert(authenticator_body_write_8(v) == seq![Tag::<8, AuthorizationData>::spec_to_value(x)] + authenticator_body_write_9(v));
            assert(authenticator_body_write_8(v)[0] == Tag::<8, AuthorizationData>::spec_to_value(x));
            assert(has_ctx(authenticator_body_write_8(v)[0], 8));
            lemma_cons_skip(Tag::<8, AuthorizationData>::spec_to_value(x), authenticator_body_write_9(v));
            assert(authenticator_body_read_8(authenticator_body_write_8(v), v.authenticator_vno, v.crealm, v.cname, v.cksum, v.cusec, v.ctime, v.subkey, v.seq_number) == authenticator_body_read_9(authenticator_body_write_9(v), v.authenticator_vno, v.crealm, v.cname, v.cksum, v.cusec, v.ctime, v.subkey, v.seq_number, Some(x)));
            assert forall|j: int| 0 <= j < authenticator_body_write_8(v).len() implies value_wf(#[trigger] authenticator_body_write_8(v)[j]) by {
                if j >= 1 {
                    assert(authenticator_body_write_8(v)[j] == authenticator_body_write_9(v)[j - 1]);
                }
            }
        },
        None => {
            assert(authenticator_body_write_8(v) == authenticator_body_write_9(v));
            if authenticator_body_write_9(v).len() > 0 {
                assert(!has_ctx(authenticator_body_write_9(v)[0], 8));
            }
            assert(authenticator_body_read_8(authenticator_body_write_8(v), v.authenticator_vno, v.crealm, v.cname, v.cksum, v.cusec, v.ctime, v.subkey, v.seq_number) == authenticator_body_read_9(authenticator_body_write_9(v), v.authenticator_vno, v.crealm, v.cname, v.cksum, v.cusec, v.ctime, v.subkey, v.seq_number, None::<Seq<AuthorizationDataElementView>>));
        },
    }
}

/// Reading the children written from field 7 on yields the view back.
proof fn authenticator_body_rt_7(v: AuthenticatorBodyView)
    requires
        AuthenticatorBody::view_wf(v),
    ensures
        authenticator_body_read_7(authenticator_body_write_7(v), v.authenticator_vno, v.crealm, v.cname, v.cksum, v.cusec, v.ctime, v.subkey) == Some(v),
        forall|j: int| 0 <= j < authenticator_body_write_7(v).len() ==> value_wf(#[trigger] authenticator_body_write_7(v)[j]),
{
    authenticator_body_rt_8(v);
    match v.seq_number {
        Some(x) => {
            Tag::<7, Integer>::lemma_round_trip(x);
            assert(authenticator_body_write_7(v) == seq![Tag::<7, Integer>::spec_to_value(x)] + authenticator_body_write_8(v));
            assert(authenticator_body_write_7(v)[0] == Tag::<7, Integer>::spec_to_value(x));
            assert(has_ctx(authenticator_body_write_7(v)[0], 7));
            lemma_cons_skip(Tag::<7, Integer>::spec_to_value(x), authenticator_body_write_8(v));
            assert(authenticator_body_read_7(authenticator_body_write_7(v), v.authenticator_vno, v.crealm, v.cname, v.cksum, v.cusec, v.ctime, v.subkey) == authenticator_body_read_8(authenticator_body_write_8(v), v.authenticator_vno, v.crealm, v.cname, v.cksum, v.cusec, v.ctime, v.subkey, Some(x)));
            assert forall|j: int| 0 <= j < authenticator_body_write_7(v).len() implies value_wf(#[trigger] authenticator_body_write_7(v)[j]) by {
                if j >= 1 {
                    assert(authenticator_body_write_7(v)[j] == authenticator_body_write_8(v)[j - 1]);
                }
            }
        },
        None => {
            assert(authenticator_body_write_7(v) == authenticator_body_write_8(v));
            if authenticator_body_write_8(v).len() > 0 {
                assert(!has_ctx(authenticator_body_write_8(v)[0], 7));
            }
            assert(authenticator_body_read_7(authenticator_body_write_7(v), v.authenticator_vno, v.crealm, v.cname, v.cksum, v.cusec, v.ctime, v.subkey) == authenticator_body_read_8(authenticator_body_write_8(v), v.authenticator_vno, v.crealm, v.cname, v.cksum, v.cusec, v.ctime, v.subkey, None::<u32>));
        },
    }
}

/// Reading the children written from field 6 on yields the view back.
proof fn authenticator_body_rt_6(v: AuthenticatorBodyView)
    requires
        AuthenticatorBody::view_wf(v),
    ensures
        authenticator_body_read_6(authenticator_body_write_6(v), v.authenticator_vno, v.crealm, v.cname, v.cksum, v.cusec, v.ctime) == Some(v),
        forall|j: int| 0 <= j < authenticator_body_write_6(v).len() ==> value_wf(#[trigger] authenticator_body_write_6(v)[j]),
{
    authenticator_body_rt_7(v);
    match v.subkey {
        Some(x) => {
            Tag::<6, EncryptionKey>::lemma_round_trip(x);
            assert(authenticator_body_write_6(v) == seq![Tag::<6, EncryptionKey>::spec_to_value(x)] + authenticator_body_write_7(v));
            assert(authenticator_body_write_6(v)[0] == Tag::<6, EncryptionKey>::spec_to_value(x));
            assert(has_ctx(authenticator_body_write_6(v)[0], 6));
            lemma_cons_skip(Tag::<6, EncryptionKey>::spec_to_value(x), authenticator_body_write_7(v));
            assert(authenticator_body_read_6(authenticator_body_write_6(v), v.authenticator_vno, v.crealm, v.cname, v.cksum, v.cusec, v.ctime) == authenticator_body_read_7(authenticator_body_write_7(v), v.authenticator_vno, v.crealm, v.cname, v.cksum, v.cusec, v.ctime, Some(x)));
            assert forall|j: int| 0 <= j < authenticator_body_write_6(v).len() implies value_wf(#[trigger] authenticator_body_write_6(v)[j]) by {
                if j >= 1 {
                    assert(authenticator_body_write_6(v)[j] == authenticator_body_write_7(v)[j - 1]);
                }
            }
        },
        None => {
            assert(authenticator_body_write_6(v) == authenticator_body_write_7(v));
            if authenticator_body_write_7(v).len() > 0 {
                assert(!has_ctx(authenticator_body_write_7(v)[0], 6));
            }
            assert(authenticator_body_read_6(authenticator_body_write_6(v), v.authenticator_vno, v.crealm, v.cname, v.cksum, v.cusec, v.ctime) == authenticator_body_read_7(authenticator_body_write_7(v), v.authenticator_vno, v.crealm, v.cname, v.cksum, v.cusec, v.ctime, None::<EncryptionKeyView>));
        },
    }
}

/// Reading the children written from field 5 on yields the view back.
proof fn authenticator_body_rt_5(v: AuthenticatorBodyView)
    requires
        AuthenticatorBody::view_wf(v),
    ensures
        authenticator_body_read_5(authenticator_body_write_5(v), v.authenticator_vno, v.crealm, v.cname, v.cksum, v.cusec) == Some(v),
        forall|j: int| 0 <= j < authenticator_body_write_5(v).len() ==> value_wf(#[trigger] authenticator_body_write_5(v)[j]),
{
    authenticator_body_rt_6(v);
    Tag::<5, KerberosTime>::lemma_round_trip(v.ctime);
    assert(authenticator_body_write_5(v) == seq![Tag::<5, KerberosTime>::spec_to_value(v.ctime)] + authenticator_body_write_6(v));
    assert(authenticator_body_write_5(v)[0] == Tag::<5, KerberosTime>::spec_to_value(v.ctime));
    assert(has_ctx(authenticator_body_write_5(v)[0], 5));
    lemma_cons_skip(Tag::<5, KerberosTime>::spec_to_value(v.ctime), authenticator_body_write_6(v));
    assert(authenticator_body_read_5(authenticator_body_write_5(v), v.authenticator_vno, v.crealm, v.cname, v.cksum, v.cusec) == authenticator_body_read_6(authenticator_body_write_6(v), v.authenticator_vno, v.crealm, v.cname, v.cksum, v.cusec, v.ctime));
    assert forall|j: int| 0 <= j < authenticator_body_write_5(v).len() implies value_wf(#[trigger] authenticator_body_write_5(v)[j]) by {
        if j >= 1 {
            assert(authenticator_body_write_5(v)[j] == authenticator_body_write_6(v)[j - 1]);
        }
    }
}

/// Reading the children written from field 4 on yields the view back.
proof fn authenticator_body_rt_4(v: AuthenticatorBodyView)
    requires
        AuthenticatorBody::view_wf(v),
    ensures
        authenticator_body_read_4(authenticator_body_write_4(v), v.authenticator_vno, v.crealm, v.cname, v.cksum) == Some(v),
        forall|j: int| 0 <= j < authenticator_body_write_4(v).len() ==> value_wf(#[trigger] authenticator_body_write_4(v)[j]),
{
    authenticator_body_rt_5(v);
    Tag::<4, Integer>::lemma_round_trip(v.cusec);
    assert(authenticator_body_write_4(v) == seq![Tag::<4, Integer>::spec_to_value(v.cusec)] + authenticator_body_write_5(v));
    assert(authenticator_body_write_4(v)[0] == Tag::<4, Integer>::spec_to_value(v.cusec));
    assert(has_ctx(authenticator_body_write_4(v)[0], 4));
    lemma_cons_skip(Tag::<4, Integer>::spec_to_value(v.cusec), authenticator_body_write_5(v));
    assert(authenticator_body_read_4(authenticator_body_write_4(v), v.authenticator_vno, v.crealm, v.cname, v.cksum) == authenticator_body_read_5(authenticator_body_write_5(v), v.authenticator_vno, v.crealm, v.cname, v.cksum, v.cusec));
    assert forall|j: int| 0 <= j < authenticator_body_write_4(v).len() implies value_wf(#[trigger] authenticator_body_write_4(v)[j]) by {
        if j >= 1 {
            assert(authenticator_body_write_4(v)[j] == authenticator_body_write_5(v)[j - 1]);
        }
    }
}

/// Reading the children written from field 3 on yields the view back.
proof fn authenticator_body_rt_3(v: AuthenticatorBodyView)
    requires
        AuthenticatorBody::view_wf(v),
    ensures
        authenticator_body_read_3(authenticator_body_write_3(v), v.authenticator_vno, v.crealm, v.cname) == Some(v),
        forall|j: int| 0 <= j < authenticator_body_write_3(v).len() ==> value_wf(#[trigger] authenticator_body_write_3(v)[j]),
{
    authenticator_body_rt_4(v);
    match v.cksum {
        Some(x) => {
            Tag::<3, Checksum>::lemma_round_trip(x);
            assert(authenticator_body_write_3(v) == seq![Tag::<3, Checksum>::spec_to_value(x)] + authenticator_body_write_4(v));
            assert(authenticator_body_write_3(v)[0] == Tag::<3, Checksum>::spec_to_value(x));
            assert(has_ctx(authenticator_body_write_3(v)[0], 3));
            lemma_cons_skip(Tag::<3, Checksum>::spec_to_value(x), authenticator_body_write_4(v));
            assert(authenticator_body_read_3(authenticator_body_write_3(v), v.authenticator_vno, v.crealm, v.cname) == authenticator_body_read_4(authenticator_body_write_4(v), v.authenticator_vno, v.crealm, v.cname, Some(x)));
            assert forall|j: int| 0 <= j < authenticator_body_write_3(v).len() implies value_wf(#[trigger] authenticator_body_write_3(v)[j]) by {
                if j >= 1 {
                    assert(authenticator_body_write_3(v)[j] == authenticator_body_write_4(v)[j - 1]);
                }
            }
        },
        None => {
            assert(authenticator_body_write_3(v) == authenticator_body_write_4(v));
            if authenticator_body_write_4(v).len() > 0 {
                assert(!has_ctx(authenticator_body_write_4(v)[0], 3));
            }
            assert(authenticator_body_read_3(authenticator_body_write_3(v), v.authenticator_vno, v.crealm, v.cname) == authenticator_body_read_4(authenticator_body_write_4(v), v.authenticator_vno, v.crealm, v.cname, None::<ChecksumView>));
        },
    }
}

/// Reading the children written from field 2 on yields the view back.
proof fn authenticator_body_rt_2(v: AuthenticatorBodyView)
    requires
        AuthenticatorBody::view_wf(v),
    ensures
        authenticator_body_read_2(authenticator_body_write_2(v), v.authenticator_vno, v.crealm) == Some(v),
        forall|j: int| 0 <= j < authenticator_body_write_2(v).len() ==> value_wf(#[trigger] authenticator_body_write_2(v)[j]),
{
    authenticator_body_rt_3(v);
    Tag::<2, PrincipalName>::lemma_round_trip(v.cname);
    assert(authenticator_body_write_2(v) == seq![Tag::<2, PrincipalName>::spec_to_value(v.cname)] + authenticator_body_write_3(v));
    assert(authenticator_body_write_2(v)[0] == Tag::<2, PrincipalName>::spec_to_value(v.cname));
    assert(has_ctx(authenticator_body_write_2(v)[0], 2));
    lemma_cons_skip(Tag::<2, PrincipalName>::spec_to_value(v.cname), authenticator_body_write_3(v));
    assert(authenticator_body_read_2(authenticator_body_write_2(v), v.authenticator_vno, v.crealm) == authenticator_body_read_3(authenticator_body_write_3(v), v.authenticator_vno, v.crealm, v.cname));
    assert forall|j: int| 0 <= j < authenticator_body_write_2(v).len() implies value_wf(#[trigger] authenticator_body_write_2(v)[j]) by {
        if j >= 1 {
            assert(authenticator_body_write_2(v)[j] == authenticator_body_write_3(v)[j - 1]);
        }
    }
}

/// Reading the children written from field 1 on yields the view back.
proof fn authenticator_body_rt_1(v: AuthenticatorBodyView)
    requires
        AuthenticatorBody::view_wf(v),
    ensures
        authenticator_body_read_1(authenticator_body_write_1(v), v.authenticator_vno) == Some(v),
        forall|j: int| 0 <= j < authenticator_body_write_1(v).len() ==> value_wf(#[trigger] authenticator_body_write_1(v)[j]),
{
    authenticator_body_rt_2(v);
    Tag::<1, Realm>::lemma_round_trip(v.crealm);
    assert(authenticator_body_write_1(v) == seq![Tag::<1, Realm>::spec_to_value(v.crealm)] + authenticator_body_write_2(v));
    assert(authenticator_body_write_1(v)[0] == Tag::<1, Realm>::spec_to_value(v.crealm));
    assert(has_ctx(authenticator_body_write_1(v)[0], 1));
    lemma_cons_skip(Tag::<1, Realm>::spec_to_value(v.crealm), authenticator_body_write_2(v));
    assert(authenticator_body_read_1(authenticator_body_write_1(v), v.authenticator_vno) == authenticator_body_read_2(authenticator_body_write_2(v), v.authenticator_vno, v.crealm));
    assert forall|j: int| 0 <= j < authenticator_body_write_1(v).len() implies value_wf(#[trigger] authenticator_body_write_1(v)[j]) by {
        if j >= 1 {
            assert(authenticator_body_write_1(v)[j] == authenticator_body_write_2(v)[j - 1]);
        }
    }
}

/// Reading the children written from field 0 on yields the view back.
proof fn authenticator_body_rt_0(v: AuthenticatorBodyView)
    requires
        AuthenticatorBody::view_wf(v),
    ensures
        authenticator_body_read_0(authenticator_body_write_0(v)) == Some(v),
        forall|j: int| 0 <= j < authenticator_body_write_0(v).len() ==> value_wf(#[trigger] authenticator_body_write_0(v)[j]),
{
    authenticator_body_rt_1(v);
    Tag::<0, Integer>::lemma_round_trip(v.authenticator_vno);
    assert(authenticator_body_write_0(v) == seq![Tag::<0, Integer>::spec_to_value(v.authenticator_vno)] + authenticator_body_write_1(v));
    assert(authenticator_body_write_0(v)[0] == Tag::<0, Integer>::spec_to_value(v.authenticator_vno));
    assert(has_ctx(authenticator_body_write_0(v)[0], 0));
    lemma_cons_skip(Tag::<0, Integer>::spec_to_value(v.authenticator_vno), authenticator_body_write_1(v));
    assert(authenticator_body_read_0(authenticator_body_write_0(v)) == authenticator_body_read_1(authenticator_body_write_1(v), v.authenticator_vno));
    assert forall|j: int| 0 <= j < authenticator_body_write_0(v).len() implies value_wf(#[trigger] authenticator_body_write_0(v)[j]) by {
        if j >= 1 {
            assert(authenticator_body_write_0(v)[j] == authenticator_body_write_1(v)[j - 1]);
        }
    }
}

/// An authenticator: `[APPLICATION 2]` around its body.
pub type Authenticator = Application<2, AuthenticatorBody>;

impl Authenticator {
    /// Build an authenticator for a client: version 5, the current time,
    /// and no checksum, subkey, sequence number or authorization data.
    pub fn new(crealm: Realm, cname: PrincipalName) -> (r: Self)
        ensures
            r.deep_view() == (AuthenticatorBodyView {
                authenticator_vno: 5,
                crealm: crealm.deep_view(),
                cname: cname.deep_view(),
                cksum: None,
                cusec: 0,
                ctime: r.deep_view().ctime,
                subkey: None,
                seq_number: None,
                authorization_data: None,
            }),
            r.deep_view().ctime.wf(),
    {
        Application {
            inner: AuthenticatorBody {
                authenticator_vno: Tag::new(5),
                crealm: Tag::new(crealm),
                cname: Tag::new(cname),
                cksum: None,
                cusec: Tag::new(0),
                ctime: Tag::new(now_utc()),
                subkey: None,
                seq_number: None,
                authorization_data: None,
            },
        }
    }
}

} // verus!