//! The KRB-CRED message: a container for forwarding tickets together
//! with their session keys (RFC 1510 section 5.8.1). The toolkit stores it
//! with null encryption as a cleartext credential cache.

use vstd::prelude::*;

verus! {

use crate::asn1::{
    Asn1Data, lemma_concat_nil, lemma_cons_skip, lemma_nil_concat, lemma_skip_skip, lemma_snoc_concat, BitStringView, GeneralString, Integer, OctetString, SequenceOf, SInteger, Tag,
    has_ctx, is_ctx,
};
use crate::base::{KerberosTime, MessageType, Realm};
use crate::encryption::{EType, KeyUsage};
use crate::error::KerlabResult;
use crate::krbkdcrep::{EncKDCRepPart, EncKDCRepPartView};
use crate::asn1::spec_to_der;
use crate::der::{AsnValue, Asn1Value, GeneralizedTime, value_wf};
use crate::error::{KerlabError, KerlabErrorKind};

use crate::asn1::Application;
use crate::base::{
    HostAddress, HostAddressView, HostAddresses, PrincipalName, PrincipalNameView, TicketFlags,
};
use crate::encryption::{EncryptedData, EncryptedDataView, EncryptionKey, EncryptionKeyView};
use crate::ticket::{Ticket, TicketBodyView};

/// The session data of one forwarded ticket (RFC 1510 section 5.8.1).
#[derive(Debug, Clone, PartialEq, Default)]
pub struct KrbCredInfo {
    pub key: Tag<0, EncryptionKey>,
    pub prealm: Option<Tag<1, Realm>>,
    pub pname: Option<Tag<2, PrincipalName>>,
    pub flags: Option<Tag<3, TicketFlags>>,
    pub authtime: Option<Tag<4, KerberosTime>>,
    pub starttime: Option<Tag<5, KerberosTime>>,
    pub endtime: Option<Tag<6, KerberosTime>>,
    pub renew_till: Option<Tag<7, KerberosTime>>,
    pub srealm: Option<Tag<8, Realm>>,
    pub sname: Option<Tag<9, PrincipalName>>,
    pub caddr: Option<Tag<10, HostAddresses>>,
}

/// The deep view of [`KrbCredInfo`].
#[verifier::ext_equal]
pub struct KrbCredInfoView {
    pub key: EncryptionKeyView,
    pub prealm: Option<Seq<u8>>,
    pub pname: Option<PrincipalNameView>,
    pub flags: Option<BitStringView>,
    pub authtime: Option<GeneralizedTime>,
    pub starttime: Option<GeneralizedTime>,
    pub endtime: Option<GeneralizedTime>,
    pub renew_till: Option<GeneralizedTime>,
    pub srealm: Option<Seq<u8>>,
    pub sname: Option<PrincipalNameView>,
    pub caddr: Option<Seq<HostAddressView>>,
}

impl DeepView for KrbCredInfo {
    type V = KrbCredInfoView;

    open spec fn deep_view(&self) -> KrbCredInfoView {
        KrbCredInfoView {
            key: self.key.deep_view(),
            prealm: self.prealm.deep_view(),
            pname: self.pname.deep_view(),
            flags: self.flags.deep_view(),
            authtime: self.authtime.deep_view(),
            starttime: self.starttime.deep_view(),
            endtime: self.endtime.deep_view(),
            renew_till: self.renew_till.deep_view(),
            srealm: self.srealm.deep_view(),
            sname: self.sname.deep_view(),
            caddr: self.caddr.deep_view(),
        }
    }
}

/// The children a [`KrbCredInfo`] writes from its field 0 on.
pub open spec fn krb_cred_info_write_0(v: KrbCredInfoView) -> Seq<AsnValue> {
    seq![Tag::<0, EncryptionKey>::spec_to_value(v.key)] + krb_cred_info_write_1(v)
}

/// The children a [`KrbCredInfo`] writes from its field 1 on.
pub open spec fn krb_cred_info_write_1(v: KrbCredInfoView) -> Seq<AsnValue> {
    match v.prealm {
        Some(x) => seq![Tag::<1, Realm>::spec_to_value(x)] + krb_cred_info_write_2(v),
        None => krb_cred_info_write_2(v),
    }
}

/// The children a [`KrbCredInfo`] writes from its field 2 on.
pub open spec fn krb_cred_info_write_2(v: KrbCredInfoView) -> Seq<AsnValue> {
    match v.pname {
        Some(x) => seq![Tag::<2, PrincipalName>::spec_to_value(x)] + krb_cred_info_write_3(v),
        None => krb_cred_info_write_3(v),
    }
}

/// The children a [`KrbCredInfo`] writes from its field 3 on.
pub open spec fn krb_cred_info_write_3(v: KrbCredInfoView) -> Seq<AsnValue> {
    match v.flags {
        Some(x) => seq![Tag::<3, TicketFlags>::spec_to_value(x)] + krb_cred_info_write_4(v),
        None => krb_cred_info_write_4(v),
    }
}

/// The children a [`KrbCredInfo`] writes from its field 4 on.
pub open spec fn krb_cred_info_write_4(v: KrbCredInfoView) -> Seq<AsnValue> {
    match v.authtime {
        Some(x) => seq![Tag::<4, KerberosTime>::spec_to_value(x)] + krb_cred_info_write_5(v),
        None => krb_cred_info_write_5(v),
    }
}

/// The children a [`KrbCredInfo`] writes from its field 5 on.
pub open spec fn krb_cred_info_write_5(v: KrbCredInfoView) -> Seq<AsnValue> {
    match v.starttime {
        Some(x) => seq![Tag::<5, KerberosTime>::spec_to_value(x)] + krb_cred_info_write_6(v),
        None => krb_cred_info_write_6(v),
    }
}

/// The children a [`KrbCredInfo`] writes from its field 6 on.
pub open spec fn krb_cred_info_write_6(v: KrbCredInfoView) -> Seq<AsnValue> {
    match v.endtime {
        Some(x) => seq![Tag::<6, KerberosTime>::spec_to_value(x)] + krb_cred_info_write_7(v),
        None => krb_cred_info_write_7(v),
    }
}

/// The children a [`KrbCredInfo`] writes from its field 7 on.
pub open spec fn krb_cred_info_write_7(v: KrbCredInfoView) -> Seq<AsnValue> {
    match v.renew_till {
        Some(x) => seq![Tag::<7, KerberosTime>::spec_to_value(x)] + krb_cred_info_write_8(v),
        None => krb_cred_info_write_8(v),
    }
}

/// The children a [`KrbCredInfo`] writes from its field 8 on.
pub open spec fn krb_cred_info_write_8(v: KrbCredInfoView) -> Seq<AsnValue> {
    match v.srealm {
        Some(x) => seq![Tag::<8, Realm>::spec_to_value(x)] + krb_cred_info_write_9(v),
        None => krb_cred_info_write_9(v),
    }
}

/// The children a [`KrbCredInfo`] writes from its field 9 on.
pub open spec fn krb_cred_info_write_9(v: KrbCredInfoView) -> Seq<AsnValue> {
    match v.sname {
        Some(x) => seq![Tag::<9, PrincipalName>::spec_to_value(x)] + krb_cred_info_write_10(v),
        None => krb_cred_info_write_10(v),
    }
}

/// The children a [`KrbCredInfo`] writes from its field 10 on.
pub open spec fn krb_cred_info_write_10(v: KrbCredInfoView) -> Seq<AsnValue> {
    match v.caddr {
        Some(x) => seq![Tag::<10, HostAddresses>::spec_to_value(x)] + krb_cred_info_write_11(v),
        None => krb_cred_info_write_11(v),
    }
}

/// The children a [`KrbCredInfo`] writes past its last field: none.
pub open spec fn krb_cred_info_write_11(v: KrbCredInfoView) -> Seq<AsnValue> {
    Seq::empty()
}

/// Read the fields of a [`KrbCredInfo`] from field 0 on.
pub open spec fn krb_cred_info_read_0(cs: Seq<AsnValue>) -> Option<KrbCredInfoView> {
    if cs.len() > 0 {
        match Tag::<0, EncryptionKey>::spec_from_value(cs[0]) {
            Some(f) => krb_cred_info_read_1(cs.skip(1), f),
            None => None,
        }
    } else {
        None
    }
}

/// Read the fields of a [`KrbCredInfo`] from field 1 on.
pub open spec fn krb_cred_info_read_1(cs: Seq<AsnValue>, f_key: EncryptionKeyView) -> Option<KrbCredInfoView> {
    if cs.len() > 0 && has_ctx(cs[0], 1) {
        match Tag::<1, Realm>::spec_from_value(cs[0]) {
            Some(f) => krb_cred_info_read_2(cs.skip(1), f_key, Some(f)),
            None => None,
        }
    } else {
        krb_cred_info_read_2(cs, f_key, None::<Seq<u8>>)
    }
}

/// Read the fields of a [`KrbCredInfo`] from field 2 on.
pub open spec fn krb_cred_info_read_2(cs: Seq<AsnValue>, f_key: EncryptionKeyView, f_prealm: Option<Seq<u8>>) -> Option<KrbCredInfoView> {
    if cs.len() > 0 && has_ctx(cs[0], 2) {
        match Tag::<2, PrincipalName>::spec_from_value(cs[0]) {
            Some(f) => krb_cred_info_read_3(cs.skip(1), f_key, f_prealm, Some(f)),
            None => None,
        }
    } else {
        krb_cred_info_read_3(cs, f_key, f_prealm, None::<PrincipalNameView>)
    }
}

/// Read the fields of a [`KrbCredInfo`] from field 3 on.
pub open spec fn krb_cred_info_read_3(cs: Seq<AsnValue>, f_key: EncryptionKeyView, f_prealm: Option<Seq<u8>>, f_pname: Option<PrincipalNameView>) -> Option<KrbCredInfoView> {
    if cs.len() > 0 && has_ctx(cs[0], 3) {
        match Tag::<3, TicketFlags>::spec_from_value(cs[0]) {
            Some(f) => krb_cred_info_read_4(cs.skip(1), f_key, f_prealm, f_pname, Some(f)),
            None => None,
        }
    } else {
        krb_cred_info_read_4(cs, f_key, f_prealm, f_pname, None::<BitStringView>)
    }
}

/// Read the fields of a [`KrbCredInfo`] from field 4 on.
pub open spec fn krb_cred_info_read_4(cs: Seq<AsnValue>, f_key: EncryptionKeyView, f_prealm: Option<Seq<u8>>, f_pname: Option<PrincipalNameView>, f_flags: Option<BitStringView>) -> Option<KrbCredInfoView> {
    if cs.len() > 0 && has_ctx(cs[0], 4) {
        match Tag::<4, KerberosTime>::spec_from_value(cs[0]) {
            Some(f) => krb_cred_info_read_5(cs.skip(1), f_key, f_prealm, f_pname, f_flags, Some(f)),
            None => None,
        }
    } else {
        krb_cred_info_read_5(cs, f_key, f_prealm, f_pname, f_flags, None::<GeneralizedTime>)
    }
}

/// Read the fields of a [`KrbCredInfo`] from field 5 on.
pub open spec fn krb_cred_info_read_5(cs: Seq<AsnValue>, f_key: EncryptionKeyView, f_prealm: Option<Seq<u8>>, f_pname: Option<PrincipalNameView>, f_flags: Option<BitStringView>, f_authtime: Option<GeneralizedTime>) -> Option<KrbCredInfoView> {
    if cs.len() > 0 && has_ctx(cs[0], 5) {
        match Tag::<5, KerberosTime>::spec_from_value(cs[0]) {
            Some(f) => krb_cred_info_read_6(cs.skip(1), f_key, f_prealm, f_pname, f_flags, f_authtime, Some(f)),
            None => None,
        }
    } else {
        krb_cred_info_read_6(cs, f_key, f_prealm, f_pname, f_flags, f_authtime, None::<GeneralizedTime>)
    }
}

/// Read the fields of a [`KrbCredInfo`] from field 6 on.
pub open spec fn krb_cred_info_read_6(cs: Seq<AsnValue>, f_key: EncryptionKeyView, f_prealm: Option<Seq<u8>>, f_pname: Option<PrincipalNameView>, f_flags: Option<BitStringView>, f_authtime: Option<GeneralizedTime>, f_starttime: Option<GeneralizedTime>) -> Option<KrbCredInfoView> {
    if cs.len() > 0 && has_ctx(cs[0], 6) {
        match Tag::<6, KerberosTime>::spec_from_value(cs[0]) {
            Some(f) => krb_cred_info_read_7(cs.skip(1), f_key, f_prealm, f_pname, f_flags, f_authtime, f_starttime, Some(f)),
            None => None,
        }
    } else {
        krb_cred_info_read_7(cs, f_key, f_prealm, f_pname, f_flags, f_authtime, f_starttime, None::<GeneralizedTime>)
    }
}

/// Read the fields of a [`KrbCredInfo`] from field 7 on.
pub open spec fn krb_cred_info_read_7(cs: Seq<AsnValue>, f_key: EncryptionKeyView, f_prealm: Option<Seq<u8>>, f_pname: Option<PrincipalNameView>, f_flags: Option<BitStringView>, f_authtime: Option<GeneralizedTime>, f_starttime: Option<GeneralizedTime>, f_endtime: Option<GeneralizedTime>) -> Option<KrbCredInfoView> {
    if cs.len() > 0 && has_ctx(cs[0], 7) {
        match Tag::<7, KerberosTime>::spec_from_value(cs[0]) {
            Some(f) => krb_cred_info_read_8(cs.skip(1), f_key, f_prealm, f_pname, f_flags, f_authtime, f_starttime, f_endtime, Some(f)),
            None => None,
        }
    } else {
        krb_cred_info_read_8(cs, f_key, f_prealm, f_pname, f_flags, f_authtime, f_starttime, f_endtime, None::<GeneralizedTime>)
    }
}

/// Read the fields of a [`KrbCredInfo`] from field 8 on.
pub open spec fn krb_cred_info_read_8(cs: Seq<AsnValue>, f_key: EncryptionKeyView, f_prealm: Option<Seq<u8>>, f_pname: Option<PrincipalNameView>, f_flags: Option<BitStringView>, f_authtime: Option<GeneralizedTime>, f_starttime: Option<GeneralizedTime>, f_endtime: Option<GeneralizedTime>, f_renew_till: Option<GeneralizedTime>) -> Option<KrbCredInfoView> {
    if cs.len() > 0 && has_ctx(cs[0], 8) {
        match Tag::<8, Realm>::spec_from_value(cs[0]) {
            Some(f) => krb_cred_info_read_9(cs.skip(1), f_key, f_prealm, f_pname, f_flags, f_authtime, f_starttime, f_endtime, f_renew_till, Some(f)),
            None => None,
        }
    } else {
        krb_cred_info_read_9(cs, f_key, f_prealm, f_pname, f_flags, f_authtime, f_starttime, f_endtime, f_renew_till, None::<Seq<u8>>)
    }
}

/// Read the fields of a [`KrbCredInfo`] from field 9 on.
pub open spec fn krb_cred_info_read_9(cs: Seq<AsnValue>, f_key: EncryptionKeyView, f_prealm: Option<Seq<u8>>, f_pname: Option<PrincipalNameView>, f_flags: Option<BitStringView>, f_authtime: Option<GeneralizedTime>, f_starttime: Option<GeneralizedTime>, f_endtime: Option<GeneralizedTime>, f_renew_till: Option<GeneralizedTime>, f_srealm: Option<Seq<u8>>) -> Option<KrbCredInfoView> {
    if cs.len() > 0 && has_ctx(cs[0], 9) {
        match Tag::<9, PrincipalName>::spec_from_value(cs[0]) {
            Some(f) => krb_cred_info_read_10(cs.skip(1), f_key, f_prealm, f_pname, f_flags, f_authtime, f_starttime, f_endtime, f_renew_till, f_srealm, Some(f)),
            None => None,
        }
    } else {
        krb_cred_info_read_10(cs, f_key, f_prealm, f_pname, f_flags, f_authtime, f_starttime, f_endtime, f_renew_till, f_srealm, None::<PrincipalNameView>)
    }
}

/// Read the fields of a [`KrbCredInfo`] from field 10 on.
pub open spec fn krb_cred_info_read_10(cs: Seq<AsnValue>, f_key: EncryptionKeyView, f_prealm: Option<Seq<u8>>, f_pname: Option<PrincipalNameView>, f_flags: Option<BitStringView>, f_authtime: Option<GeneralizedTime>, f_starttime: Option<GeneralizedTime>, f_endtime: Option<GeneralizedTime>, f_renew_till: Option<GeneralizedTime>, f_srealm: Option<Seq<u8>>, f_sname: Option<PrincipalNameView>) -> Option<KrbCredInfoView> {
    if cs.len() > 0 && has_ctx(cs[0], 10) {
        match Tag::<10, HostAddresses>::spec_from_value(cs[0]) {
            Some(f) => krb_cred_info_read_11(cs.skip(1), f_key, f_prealm, f_pname, f_flags, f_authtime, f_starttime, f_endtime, f_renew_till, f_srealm, f_sname, Some(f)),
            None => None,
        }
    } else {
        krb_cred_info_read_11(cs, f_key, f_prealm, f_pname, f_flags, f_authtime, f_starttime, f_endtime, f_renew_till, f_srealm, f_sname, None::<Seq<HostAddressView>>)
    }
}

/// Past the last field of a [`KrbCredInfo`]: the children must be spent.
pub open spec fn krb_cred_info_read_11(cs: Seq<AsnValue>, f_key: EncryptionKeyView, f_prealm: Option<Seq<u8>>, f_pname: Option<PrincipalNameView>, f_flags: Option<BitStringView>, f_authtime: Option<GeneralizedTime>, f_starttime: Option<GeneralizedTime>, f_endtime: Option<GeneralizedTime>, f_renew_till: Option<GeneralizedTime>, f_srealm: Option<Seq<u8>>, f_sname: Option<PrincipalNameView>, f_caddr: Option<Seq<HostAddressView>>) -> Option<KrbCredInfoView> {
    if cs.len() == 0 {
        Some(KrbCredInfoView {
            key: f_key,
            prealm: f_prealm,
            pname: f_pname,
            flags: f_flags,
            authtime: f_authtime,
            starttime: f_starttime,
            endtime: f_endtime,
            renew_till: f_renew_till,
            srealm: f_srealm,
            sname: f_sname,
            caddr: f_caddr,
        })
    } else {
        None
    }
}

impl Asn1Data for KrbCredInfo {
    open spec fn view_wf(v: KrbCredInfoView) -> bool {
        Tag::<0, EncryptionKey>::view_wf(v.key)
            && (match v.prealm {
            Some(x) => Tag::<1, Realm>::view_wf(x),
            None => true,
        })
            && (match v.pname {
            Some(x) => Tag::<2, PrincipalName>::view_wf(x),
            None => true,
        })
            && (match v.flags {
            Some(x) => Tag::<3, TicketFlags>::view_wf(x),
            None => true,
        })
            && (match v.authtime {
            Some(x) => Tag::<4, KerberosTime>::view_wf(x),
            None => true,
        })
            && (match v.starttime {
            Some(x) => Tag::<5, KerberosTime>::view_wf(x),
            None => true,
        })
            && (match v.endtime {
            Some(x) => Tag::<6, KerberosTime>::view_wf(x),
            None => true,
        })
            && (match v.renew_till {
            Some(x) => Tag::<7, KerberosTime>::view_wf(x),
            None => true,
        })
            && (match v.srealm {
            Some(x) => Tag::<8, Realm>::view_wf(x),
            None => true,
        })
            && (match v.sname {
            Some(x) => Tag::<9, PrincipalName>::view_wf(x),
            None => true,
        })
            && (match v.caddr {
            Some(x) => Tag::<10, HostAddresses>::view_wf(x),
            None => true,
        })
    }

    open spec fn spec_to_value(v: KrbCredInfoView) -> AsnValue {
        AsnValue::Sequence(krb_cred_info_write_0(v))
    }

    open spec fn spec_from_value(a: AsnValue) -> Option<KrbCredInfoView> {
        match a {
            AsnValue::Sequence(cs) => krb_cred_info_read_0(cs),
            _ => None,
        }
    }

    fn to_value(&self) -> (r: Asn1Value) {
        let mut children: Vec<Asn1Value> = Vec::new();
        proof {
            assert(crate::der::view_list(children@) =~= Seq::<AsnValue>::empty());
        }
        krb_cred_info_emit_0(self, &mut children);
        proof {
            lemma_nil_concat(krb_cred_info_write_0(self.deep_view()));
        }
        Asn1Value::Sequence(children)
    }

    fn from_value(a: &Asn1Value) -> (r: Result<Self, KerlabError>) {
        match a {
            Asn1Value::Sequence(cs) => {
                proof {
                    crate::der::lemma_view_list(cs@);
                    assert(crate::der::view_list(cs@).skip(0) =~= crate::der::view_list(cs@));
                }
                krb_cred_info_parse_0(cs, 0)
            },
            _ => Err(KerlabError::new(KerlabErrorKind::Parsing, "expected a sequence")),
        }
    }

    proof fn lemma_round_trip(v: KrbCredInfoView) {
        krb_cred_info_rt_0(v);
        assert(Self::spec_from_value(Self::spec_to_value(v)) == Some(v));
    }
}

/// Past the last field of a [`KrbCredInfo`]: push nothing.
fn krb_cred_info_emit_11(m: &KrbCredInfo, children: &mut Vec<Asn1Value>)
    requires
        KrbCredInfo::view_wf(m.deep_view()),
    ensures
        crate::der::view_list(final(children)@) == crate::der::view_list(old(children)@) + krb_cred_info_write_11(m.deep_view()),
{
    proof {
        lemma_concat_nil(crate::der::view_list(children@));
    }
}

/// Push the children for the fields of a [`KrbCredInfo`] from field 10 on.
fn krb_cred_info_emit_10(m: &KrbCredInfo, children: &mut Vec<Asn1Value>)
    requires
        KrbCredInfo::view_wf(m.deep_view()),
    ensures
        crate::der::view_list(final(children)@) == crate::der::view_list(old(children)@) + krb_cred_info_write_10(m.deep_view()),
{
    match &m.caddr {
        Some(x) => {
            let ghost ch_prev = children@;
            children.push(x.to_value());
            proof {
                assert(children@.drop_last() =~= ch_prev);
                assert(crate::der::view_list(children@) == crate::der::view_list(ch_prev).push(Tag::<10, HostAddresses>::spec_to_value(x.deep_view())));
            }
            krb_cred_info_emit_11(m, children);
            proof {
                assert(krb_cred_info_write_10(m.deep_view()) == seq![Tag::<10, HostAddresses>::spec_to_value(x.deep_view())] + krb_cred_info_write_11(m.deep_view()));
                lemma_snoc_concat(crate::der::view_list(ch_prev), Tag::<10, HostAddresses>::spec_to_value(x.deep_view()), krb_cred_info_write_11(m.deep_view()));
            }
        },
        None => {
            krb_cred_info_emit_11(m, children);
            proof {
                assert(krb_cred_info_write_10(m.deep_view()) == krb_cred_info_write_11(m.deep_view()));
            }
        },
    }
}

/// Push the children for the fields of a [`KrbCredInfo`] from field 9 on.
fn krb_cred_info_emit_9(m: &KrbCredInfo, children: &mut Vec<Asn1Value>)
    requires
        KrbCredInfo::view_wf(m.deep_view()),
    ensures
        crate::der::view_list(final(children)@) == crate::der::view_list(old(children)@) + krb_cred_info_write_9(m.deep_view()),
{
    match &m.sname {
        Some(x) => {
            let ghost ch_prev = children@;
            children.push(x.to_value());
            proof {
                assert(children@.drop_last() =~= ch_prev);
                assert(crate::der::view_list(children@) == crate::der::view_list(ch_prev).push(Tag::<9, PrincipalName>::spec_to_value(x.deep_view())));
            }
            krb_cred_info_emit_10(m, children);
            proof {
                assert(krb_cred_info_write_9(m.deep_view()) == seq![Tag::<9, PrincipalName>::spec_to_value(x.deep_view())] + krb_cred_info_write_10(m.deep_view()));
                lemma_snoc_concat(crate::der::view_list(ch_prev), Tag::<9, PrincipalName>::spec_to_value(x.deep_view()), krb_cred_info_write_10(m.deep_view()));
            }
        },
        None => {
            krb_cred_info_emit_10(m, children);
            proof {
                assert(krb_cred_info_write_9(m.deep_view()) == krb_cred_info_write_10(m.deep_view()));
            }
        },
    }
}

/// Push the children for the fields of a [`KrbCredInfo`] from field 8 on.
fn krb_cred_info_emit_8(m: &KrbCredInfo, children: &mut Vec<Asn1Value>)
    requires
        KrbCredInfo::view_wf(m.deep_view()),
    ensures
        crate::der::view_list(final(children)@) == crate::der::view_list(old(children)@) + krb_cred_info_write_8(m.deep_view()),
{
    match &m.srealm {
        Some(x) => {
            let ghost ch_prev = children@;
            children.push(x.to_value());
            proof {
                assert(children@.drop_last() =~= ch_prev);
                assert(crate::der::view_list(children@) == crate::der::view_list(ch_prev).push(Tag::<8, Realm>::spec_to_value(x.deep_view())));
            }
            krb_cred_info_emit_9(m, children);
            proof {
                assert(krb_cred_info_write_8(m.deep_view()) == seq![Tag::<8, Realm>::spec_to_value(x.deep_view())] + krb_cred_info_write_9(m.deep_view()));
                lemma_snoc_concat(crate::der::view_list(ch_prev), Tag::<8, Realm>::spec_to_value(x.deep_view()), krb_cred_info_write_9(m.deep_view()));
            }
        },
        None => {
            krb_cred_info_emit_9(m, children);
            proof {
                assert(krb_cred_info_write_8(m.deep_view()) == krb_cred_info_write_9(m.deep_view()));
            }
        },
    }
}

/// Push the children for the fields of a [`KrbCredInfo`] from field 7 on.
fn krb_cred_info_emit_7(m: &KrbCredInfo, children: &mut Vec<Asn1Value>)
    requires
        KrbCredInfo::view_wf(m.deep_view()),
    ensures
        crate::der::view_list(final(children)@) == crate::der::view_list(old(children)@) + krb_cred_info_write_7(m.deep_view()),
{
    match &m.renew_till {
        Some(x) => {
            let ghost ch_prev = children@;
            children.push(x.to_value());
            proof {
                assert(children@.drop_last() =~= ch_prev);
                assert(crate::der::view_list(children@) == crate::der::view_list(ch_prev).push(Tag::<7, KerberosTime>::spec_to_value(x.deep_view())));
            }
            krb_cred_info_emit_8(m, children);
            proof {
                assert(krb_cred_info_write_7(m.deep_view()) == seq![Tag::<7, KerberosTime>::spec_to_value(x.deep_view())] + krb_cred_info_write_8(m.deep_view()));
                lemma_snoc_concat(crate::der::view_list(ch_prev), Tag::<7, KerberosTime>::spec_to_value(x.deep_view()), krb_cred_info_write_8(m.deep_view()));
            }
        },
        None => {
            krb_cred_info_emit_8(m, children);
            proof {
                assert(krb_cred_info_write_7(m.deep_view()) == krb_cred_info_write_8(m.deep_view()));
            }
        },
    }
}

/// Push the children for the fields of a [`KrbCredInfo`] from field 6 on.
fn krb_cred_info_emit_6(m: &KrbCredInfo, children: &mut Vec<Asn1Value>)
    requires
        KrbCredInfo::view_wf(m.deep_view()),
    ensures
        crate::der::view_list(final(children)@) == crate::der::view_list(old(children)@) + krb_cred_info_write_6(m.deep_view()),
{
    match &m.endtime {
        Some(x) => {
            let ghost ch_prev = children@;
            children.push(x.to_value());
            proof {
                assert(children@.drop_last() =~= ch_prev);
                assert(crate::der::view_list(children@) == crate::der::view_list(ch_prev).push(Tag::<6, KerberosTime>::spec_to_value(x.deep_view())));
            }
            krb_cred_info_emit_7(m, children);
            proof {
                assert(krb_cred_info_write_6(m.deep_view()) == seq![Tag::<6, KerberosTime>::spec_to_value(x.deep_view())] + krb_cred_info_write_7(m.deep_view()));
                lemma_snoc_concat(crate::der::view_list(ch_prev), Tag::<6, KerberosTime>::spec_to_value(x.deep_view()), krb_cred_info_write_7(m.deep_view()));
            }
        },
        None => {
            krb_cred_info_emit_7(m, children);
            proof {
                assert(krb_cred_info_write_6(m.deep_view()) == krb_cred_info_write_7(m.deep_view()));
            }
        },
    }
}

/// Push the children for the fields of a [`KrbCredInfo`] from field 5 on.
fn krb_cred_info_emit_5(m: &KrbCredInfo, children: &mut Vec<Asn1Value>)
    requires
        KrbCredInfo::view_wf(m.deep_view()),
    ensures
        crate::der::view_list(final(children)@) == crate::der::view_list(old(children)@) + krb_cred_info_write_5(m.deep_view()),
{
    match &m.starttime {
        Some(x) => {
            let ghost ch_prev = children@;
            children.push(x.to_value());
            proof {
                assert(children@.drop_last() =~= ch_prev);
                assert(crate::der::view_list(children@) == crate::der::view_list(ch_prev).push(Tag::<5, KerberosTime>::spec_to_value(x.deep_view())));
            }
            krb_cred_info_emit_6(m, children);
            proof {
                assert(krb_cred_info_write_5(m.deep_view()) == seq![Tag::<5, KerberosTime>::spec_to_value(x.deep_view())] + krb_cred_info_write_6(m.deep_view()));
                lemma_snoc_concat(crate::der::view_list(ch_prev), Tag::<5, KerberosTime>::spec_to_value(x.deep_view()), krb_cred_info_write_6(m.deep_view()));
            }
        },
        None => {
            krb_cred_info_emit_6(m, children);
            proof {
                assert(krb_cred_info_write_5(m.deep_view()) == krb_cred_info_write_6(m.deep_view()));
            }
        },
    }
}

/// Push the children for the fields of a [`KrbCredInfo`] from field 4 on.
fn krb_cred_info_emit_4(m: &KrbCredInfo, children: &mut Vec<Asn1Value>)
    requires
        KrbCredInfo::view_wf(m.deep_view()),
    ensures
        crate::der::view_list(final(children)@) == crate::der::view_list(old(children)@) + krb_cred_info_write_4(m.deep_view()),
{
    match &m.authtime {
        Some(x) => {
            let ghost ch_prev = children@;
            children.push(x.to_value());
            proof {
                assert(children@.drop_last() =~= ch_prev);
                assert(crate::der::view_list(children@) == crate::der::view_list(ch_prev).push(Tag::<4, KerberosTime>::spec_to_value(x.deep_view())));
            }
            krb_cred_info_emit_5(m, children);
            proof {
                assert(krb_cred_info_write_4(m.deep_view()) == seq![Tag::<4, KerberosTime>::spec_to_value(x.deep_view())] + krb_cred_info_write_5(m.deep_view()));
                lemma_snoc_concat(crate::der::view_list(ch_prev), Tag::<4, KerberosTime>::spec_to_value(x.deep_view()), krb_cred_info_write_5(m.deep_view()));
            }
        },
        None => {
            krb_cred_info_emit_5(m, children);
            proof {
                assert(krb_cred_info_write_4(m.deep_view()) == krb_cred_info_write_5(m.deep_view()));
            }
        },
    }
}

/// Push the children for the fields of a [`KrbCredInfo`] from field 3 on.
fn krb_cred_info_emit_3(m: &KrbCredInfo, children: &mut Vec<Asn1Value>)
    requires
        KrbCredInfo::view_wf(m.deep_view()),
    ensures
        crate::der::view_list(final(children)@) == crate::der::view_list(old(children)@) + krb_cred_info_write_3(m.deep_view()),
{
    match &m.flags {
        Some(x) => {
            let ghost ch_prev = children@;
            children.push(x.to_value());
            proof {
                assert(children@.drop_last() =~= ch_prev);
                assert(crate::der::view_list(children@) == crate::der::view_list(ch_prev).push(Tag::<3, TicketFlags>::spec_to_value(x.deep_view())));
            }
            krb_cred_info_emit_4(m, children);
            proof {
                assert(krb_cred_info_write_3(m.deep_view()) == seq![Tag::<3, TicketFlags>::spec_to_value(x.deep_view())] + krb_cred_info_write_4(m.deep_view()));
                lemma_snoc_concat(crate::der::view_list(ch_prev), Tag::<3, TicketFlags>::spec_to_value(x.deep_view()), krb_cred_info_write_4(m.deep_view()));
            }
        },
        None => {
            krb_cred_info_emit_4(m, children);
            proof {
                assert(krb_cred_info_write_3(m.deep_view()) == krb_cred_info_write_4(m.deep_view()));
            }
        },
    }
}

/// Push the children for the fields of a [`KrbCredInfo`] from field 2 on.
fn krb_cred_info_emit_2(m: &KrbCredInfo, children: &mut Vec<Asn1Value>)
    requires
        KrbCredInfo::view_wf(m.deep_view()),
    ensures
        crate::der::view_list(final(children)@) == crate::der::view_list(old(children)@) + krb_cred_info_write_2(m.deep_view()),
{
    match &m.pname {
        Some(x) => {
            let ghost ch_prev = children@;
            children.push(x.to_value());
            proof {
                assert(children@.drop_last() =~= ch_prev);
                assert(crate::der::view_list(children@) == crate::der::view_list(ch_prev).push(Tag::<2, PrincipalName>::spec_to_value(x.deep_view())));
            }
            krb_cred_info_emit_3(m, children);
            proof {
                assert(krb_cred_info_write_2(m.deep_view()) == seq![Tag::<2, PrincipalName>::spec_to_value(x.deep_view())] + krb_cred_info_write_3(m.deep_view()));
                lemma_snoc_concat(crate::der::view_list(ch_prev), Tag::<2, PrincipalName>::spec_to_value(x.deep_view()), krb_cred_info_write_3(m.deep_view()));
            }
        },
        None => {
            krb_cred_info_emit_3(m, children);
            proof {
                assert(krb_cred_info_write_2(m.deep_view()) == krb_cred_info_write_3(m.deep_view()));
            }
        },
    }
}

/// Push the children for the fields of a [`KrbCredInfo`] from field 1 on.
fn krb_cred_info_emit_1(m: &KrbCredInfo, children: &mut Vec<Asn1Value>)
    requires
        KrbCredInfo::view_wf(m.deep_view()),
    ensures
        crate::der::view_list(final(children)@) == crate::der::view_list(old(children)@) + krb_cred_info_write_1(m.deep_view()),
{
    match &m.prealm {
        Some(x) => {
            let ghost ch_prev = children@;
            children.push(x.to_value());
            proof {
                assert(children@.drop_last() =~= ch_prev);
                assert(crate::der::view_list(children@) == crate::der::view_list(ch_prev).push(Tag::<1, Realm>::spec_to_value(x.deep_view())));
            }
            krb_cred_info_emit_2(m, children);
            proof {
                assert(krb_cred_info_write_1(m.deep_view()) == seq![Tag::<1, Realm>::spec_to_value(x.deep_view())] + krb_cred_info_write_2(m.deep_view()));
                lemma_snoc_concat(crate::der::view_list(ch_prev), Tag::<1, Realm>::spec_to_value(x.deep_view()), krb_cred_info_write_2(m.deep_view()));
            }
        },
        None => {
            krb_cred_info_emit_2(m, children);
            proof {
                assert(krb_cred_info_write_1(m.deep_view()) == krb_cred_info_write_2(m.deep_view()));
            }
        },
    }
}

/// Push the children for the fields of a [`KrbCredInfo`] from field 0 on.
fn krb_cred_info_emit_0(m: &KrbCredInfo, children: &mut Vec<Asn1Value>)
    requires
        KrbCredInfo::view_wf(m.deep_view()),
    ensures
        crate::der::view_list(final(children)@) == crate::der::view_list(old(children)@) + krb_cred_info_write_0(m.deep_view()),
{
    let ghost ch_prev = children@;
    children.push(m.key.to_value());
    proof {
        assert(children@.drop_last() =~= ch_prev);
        assert(crate::der::view_list(children@) == crate::der::view_list(ch_prev).push(Tag::<0, EncryptionKey>::spec_to_value(m.key.deep_view())));
    }
    krb_cred_info_emit_1(m, children);
    proof {
        assert(krb_cred_info_write_0(m.deep_view()) == seq![Tag::<0, EncryptionKey>::spec_to_value(m.key.deep_view())] + krb_cred_info_write_1(m.deep_view()));
        lemma_snoc_concat(crate::der::view_list(ch_prev), Tag::<0, EncryptionKey>::spec_to_value(m.key.deep_view()), krb_cred_info_write_1(m.deep_view()));
    }
}

/// Past the last field of a [`KrbCredInfo`]: the children must be spent.
fn krb_cred_info_parse_11(cs: &Vec<Asn1Value>, i: usize, f_key: Tag<0, EncryptionKey>, f_prealm: Option<Tag<1, Realm>>, f_pname: Option<Tag<2, PrincipalName>>, f_flags: Option<Tag<3, TicketFlags>>, f_authtime: Option<Tag<4, KerberosTime>>, f_starttime: Option<Tag<5, KerberosTime>>, f_endtime: Option<Tag<6, KerberosTime>>, f_renew_till: Option<Tag<7, KerberosTime>>, f_srealm: Option<Tag<8, Realm>>, f_sname: Option<Tag<9, PrincipalName>>, f_caddr: Option<Tag<10, HostAddresses>>) -> (r: Result<KrbCredInfo, KerlabError>)
    requires
        i <= cs@.len(),
        Tag::<0, EncryptionKey>::view_wf(f_key.deep_view()),
        (match f_prealm {
            Some(x) => Tag::<1, Realm>::view_wf(x.deep_view()),
            None => true,
        }),
        (match f_pname {
            Some(x) => Tag::<2, PrincipalName>::view_wf(x.deep_view()),
            None => true,
        }),
        (match f_flags {
            Some(x) => Tag::<3, TicketFlags>::view_wf(x.deep_view()),
            None => true,
        }),
        (match f_authtime {
            Some(x) => Tag::<4, KerberosTime>::view_wf(x.deep_view()),
            None => true,
        }),
        (match f_starttime {
            Some(x) => Tag::<5, KerberosTime>::view_wf(x.deep_view()),
            None => true,
        }),
        (match f_endtime {
            Some(x) => Tag::<6, KerberosTime>::view_wf(x.deep_view()),
            None => true,
        }),
        (match f_renew_till {
            Some(x) => Tag::<7, KerberosTime>::view_wf(x.deep_view()),
            None => true,
        }),
        (match f_srealm {
            Some(x) => Tag::<8, Realm>::view_wf(x.deep_view()),
            None => true,
        }),
        (match f_sname {
            Some(x) => Tag::<9, PrincipalName>::view_wf(x.deep_view()),
            None => true,
        }),
        (match f_caddr {
            Some(x) => Tag::<10, HostAddresses>::view_wf(x.deep_view()),
            None => true,
        }),
    ensures
        match r {
            Ok(x) => krb_cred_info_read_11(crate::der::view_list(cs@).skip(i as int), f_key.deep_view(), f_prealm.deep_view(), f_pname.deep_view(), f_flags.deep_view(), f_authtime.deep_view(), f_starttime.deep_view(), f_endtime.deep_view(), f_renew_till.deep_view(), f_srealm.deep_view(), f_sname.deep_view(), f_caddr.deep_view()) == Some(x.deep_view())
                && KrbCredInfo::view_wf(x.deep_view()),
            Err(e) => krb_cred_info_read_11(crate::der::view_list(cs@).skip(i as int), f_key.deep_view(), f_prealm.deep_view(), f_pname.deep_view(), f_flags.deep_view(), f_authtime.deep_view(), f_starttime.deep_view(), f_endtime.deep_view(), f_renew_till.deep_view(), f_srealm.deep_view(), f_sname.deep_view(), f_caddr.deep_view()) is None
                && e.spec_kind() == KerlabErrorKind::Parsing,
        },
{
    proof {
        crate::der::lemma_view_list(cs@);
    }
    let ghost vl = crate::der::view_list(cs@);
    if i != cs.len() {
        proof {
            assert(vl.skip(i as int).len() > 0);
        }
        return Err(KerlabError::new(KerlabErrorKind::Parsing, "unexpected extra field"));
    }
    proof {
        assert(vl.skip(i as int).len() == 0);
    }
    Ok(KrbCredInfo {
        key: f_key,
        prealm: f_prealm,
        pname: f_pname,
        flags: f_flags,
        authtime: f_authtime,
        starttime: f_starttime,
        endtime: f_endtime,
        renew_till: f_renew_till,
        srealm: f_srealm,
        sname: f_sname,
        caddr: f_caddr,
    })
}

/// Read the fields of a [`KrbCredInfo`] from field 10 on.
fn krb_cred_info_parse_10(cs: &Vec<Asn1Value>, i: usize, f_key: Tag<0, EncryptionKey>, f_prealm: Option<Tag<1, Realm>>, f_pname: Option<Tag<2, PrincipalName>>, f_flags: Option<Tag<3, TicketFlags>>, f_authtime: Option<Tag<4, KerberosTime>>, f_starttime: Option<Tag<5, KerberosTime>>, f_endtime: Option<Tag<6, KerberosTime>>, f_renew_till: Option<Tag<7, KerberosTime>>, f_srealm: Option<Tag<8, Realm>>, f_sname: Option<Tag<9, PrincipalName>>) -> (r: Result<KrbCredInfo, KerlabError>)
    requires
        i <= cs@.len(),
        Tag::<0, EncryptionKey>::view_wf(f_key.deep_view()),
        (match f_prealm {
            Some(x) => Tag::<1, Realm>::view_wf(x.deep_view()),
            None => true,
        }),
        (match f_pname {
            Some(x) => Tag::<2, PrincipalName>::view_wf(x.deep_view()),
            None => true,
        }),
        (match f_flags {
            Some(x) => Tag::<3, TicketFlags>::view_wf(x.deep_view()),
            None => true,
        }),
        (match f_authtime {
            Some(x) => Tag::<4, KerberosTime>::view_wf(x.deep_view()),
            None => true,
        }),
        (match f_starttime {
            Some(x) => Tag::<5, KerberosTime>::view_wf(x.deep_view()),
            None => true,
        }),
        (match f_endtime {
            Some(x) => Tag::<6, KerberosTime>::view_wf(x.deep_view()),
            None => true,
        }),
        (match f_renew_till {
            Some(x) => Tag::<7, KerberosTime>::view_wf(x.deep_view()),
            None => true,
        }),
        (match f_srealm {
            Some(x) => Tag::<8, Realm>::view_wf(x.deep_view()),
            None => true,
        }),
        (match f_sname {
            Some(x) => Tag::<9, PrincipalName>::view_wf(x.deep_view()),
            None => true,
        }),
    ensures
        match r {
            Ok(x) => krb_cred_info_read_10(crate::der::view_list(cs@).skip(i as int), f_key.deep_view(), f_prealm.deep_view(), f_pname.deep_view(), f_flags.deep_view(), f_authtime.deep_view(), f_starttime.deep_view(), f_endtime.deep_view(), f_renew_till.deep_view(), f_srealm.deep_view(), f_sname.deep_view()) == Some(x.deep_view())
                && KrbCredInfo::view_wf(x.deep_view()),
            Err(e) => krb_cred_info_read_10(crate::der::view_list(cs@).skip(i as int), f_key.deep_view(), f_prealm.deep_view(), f_pname.deep_view(), f_flags.deep_view(), f_authtime.deep_view(), f_starttime.deep_view(), f_endtime.deep_view(), f_renew_till.deep_view(), f_srealm.deep_view(), f_sname.deep_view()) is None
                && e.spec_kind() == KerlabErrorKind::Parsing,
        },
{
    proof {
        crate::der::lemma_view_list(cs@);
    }
    let ghost vl = crate::der::view_list(cs@);
    if i < cs.len() && is_ctx(&cs[i], 10) {
        proof {
            assert(vl.skip(i as int)[0] == vl[i as int]);
            assert(vl[i as int] == cs@[i as int]@);
        }
        let x = match Tag::<10, HostAddresses>::from_value(&cs[i]) {
            Ok(x) => x,
            Err(e) => {
                return Err(e);
            },
        };
        proof {
            lemma_skip_skip(vl, i as int);
        }
        let r = krb_cred_info_parse_11(cs, i + 1, f_key, f_prealm, f_pname, f_flags, f_authtime, f_starttime, f_endtime, f_renew_till, f_srealm, f_sname, Some(x));
        proof {
            assert(krb_cred_info_read_10(vl.skip(i as int), f_key.deep_view(), f_prealm.deep_view(), f_pname.deep_view(), f_flags.deep_view(), f_authtime.deep_view(), f_starttime.deep_view(), f_endtime.deep_view(), f_renew_till.deep_view(), f_srealm.deep_view(), f_sname.deep_view()) == krb_cred_info_read_11(vl.skip(i + 1), f_key.deep_view(), f_prealm.deep_view(), f_pname.deep_view(), f_flags.deep_view(), f_authtime.deep_view(), f_starttime.deep_view(), f_endtime.deep_view(), f_renew_till.deep_view(), f_srealm.deep_view(), f_sname.deep_view(), Some(x).deep_view()));
        }
        r
    } else {
        proof {
            if i < cs@.len() {
                assert(vl.skip(i as int)[0] == vl[i as int]);
                assert(vl[i as int] == cs@[i as int]@);
            }
        }
        let r = krb_cred_info_parse_11(cs, i, f_key, f_prealm, f_pname, f_flags, f_authtime, f_starttime, f_endtime, f_renew_till, f_srealm, f_sname, None);
        proof {
            assert(krb_cred_info_read_10(vl.skip(i as int), f_key.deep_view(), f_prealm.deep_view(), f_pname.deep_view(), f_flags.deep_view(), f_authtime.deep_view(), f_starttime.deep_view(), f_endtime.deep_view(), f_renew_till.deep_view(), f_srealm.deep_view(), f_sname.deep_view()) == krb_cred_info_read_11(vl.skip(i as int), f_key.deep_view(), f_prealm.deep_view(), f_pname.deep_view(), f_flags.deep_view(), f_authtime.deep_view(), f_starttime.deep_view(), f_endtime.deep_view(), f_renew_till.deep_view(), f_srealm.deep_view(), f_sname.deep_view(), None::<Tag<10, HostAddresses>>.deep_view()));
        }
        r
    }
}

/// Read the fields of a [`KrbCredInfo`] from field 9 on.
fn krb_cred_info_parse_9(cs: &Vec<Asn1Value>, i: usize, f_key: Tag<0, EncryptionKey>, f_prealm: Option<Tag<1, Realm>>, f_pname: Option<Tag<2, PrincipalName>>, f_flags: Option<Tag<3, TicketFlags>>, f_authtime: Option<Tag<4, KerberosTime>>, f_starttime: Option<Tag<5, KerberosTime>>, f_endtime: Option<Tag<6, KerberosTime>>, f_renew_till: Option<Tag<7, KerberosTime>>, f_srealm: Option<Tag<8, Realm>>) -> (r: Result<KrbCredInfo, KerlabError>)
    requires
        i <= cs@.len(),
        Tag::<0, EncryptionKey>::view_wf(f_key.deep_view()),
        (match f_prealm {
            Some(x) => Tag::<1, Realm>::view_wf(x.deep_view()),
            None => true,
        }),
        (match f_pname {
            Some(x) => Tag::<2, PrincipalName>::view_wf(x.deep_view()),
            None => true,
        }),
        (match f_flags {
            Some(x) => Tag::<3, TicketFlags>::view_wf(x.deep_view()),
            None => true,
        }),
        (match f_authtime {
            Some(x) => Tag::<4, KerberosTime>::view_wf(x.deep_view()),
            None => true,
        }),
        (match f_starttime {
            Some(x) => Tag::<5, KerberosTime>::view_wf(x.deep_view()),
            None => true,
        }),
        (match f_endtime {
            Some(x) => Tag::<6, KerberosTime>::view_wf(x.deep_view()),
            None => true,
        }),
        (match f_renew_till {
            Some(x) => Tag::<7, KerberosTime>::view_wf(x.deep_view()),
            None => true,
        }),
        (match f_srealm {
            Some(x) => Tag::<8, Realm>::view_wf(x.deep_view()),
            None => true,
        }),
    ensures
        match r {
            Ok(x) => krb_cred_info_read_9(crate::der::view_list(cs@).skip(i as int), f_key.deep_view(), f_prealm.deep_view(), f_pname.deep_view(), f_flags.deep_view(), f_authtime.deep_view(), f_starttime.deep_view(), f_endtime.deep_view(), f_renew_till.deep_view(), f_srealm.deep_view()) == Some(x.deep_view())
                && KrbCredInfo::view_wf(x.deep_view()),
            Err(e) => krb_cred_info_read_9(crate::der::view_list(cs@).skip(i as int), f_key.deep_view(), f_prealm.deep_view(), f_pname.deep_view(), f_flags.deep_view(), f_authtime.deep_view(), f_starttime.deep_view(), f_endtime.deep_view(), f_renew_till.deep_view(), f_srealm.deep_view()) is None
                && e.spec_kind() == KerlabErrorKind::Parsing,
        },
{
    proof {
        crate::der::lemma_view_list(cs@);
    }
    let ghost vl = crate::der::view_list(cs@);
    if i < cs.len() && is_ctx(&cs[i], 9) {
        proof {
            assert(vl.skip(i as int)[0] == vl[i as int]);
            assert(vl[i as int] == cs@[i as int]@);
        }
        let x = match Tag::<9, PrincipalName>::from_value(&cs[i]) {
            Ok(x) => x,
            Err(e) => {
                return Err(e);
            },
        };
        proof {
            lemma_skip_skip(vl, i as int);
        }
        let r = krb_cred_info_parse_10(cs, i + 1, f_key, f_prealm, f_pname, f_flags, f_authtime, f_starttime, f_endtime, f_renew_till, f_srealm, Some(x));
        proof {
            assert(krb_cred_info_read_9(vl.skip(i as int), f_key.deep_view(), f_prealm.deep_view(), f_pname.deep_view(), f_flags.deep_view(), f_authtime.deep_view(), f_starttime.deep_view(), f_endtime.deep_view(), f_renew_till.deep_view(), f_srealm.deep_view()) == krb_cred_info_read_10(vl.skip(i + 1), f_key.deep_view(), f_prealm.deep_view(), f_pname.deep_view(), f_flags.deep_view(), f_authtime.deep_view(), f_starttime.deep_view(), f_endtime.deep_view(), f_renew_till.deep_view(), f_srealm.deep_view(), Some(x).deep_view()));
        }
        r
    } else {
        proof {
            if i < cs@.len() {
                assert(vl.skip(i as int)[0] == vl[i as int]);
                assert(vl[i as int] == cs@[i as int]@);
            }
        }
        let r = krb_cred_info_parse_10(cs, i, f_key, f_prealm, f_pname, f_flags, f_authtime, f_starttime, f_endtime, f_renew_till, f_srealm, None);
        proof {
            assert(krb_cred_info_read_9(vl.skip(i as int), f_key.deep_view(), f_prealm.deep_view(), f_pname.deep_view(), f_flags.deep_view(), f_authtime.deep_view(), f_starttime.deep_view(), f_endtime.deep_view(), f_renew_till.deep_view(), f_srealm.deep_view()) == krb_cred_info_read_10(vl.skip(i as int), f_key.deep_view(), f_prealm.deep_view(), f_pname.deep_view(), f_flags.deep_view(), f_authtime.deep_view(), f_starttime.deep_view(), f_endtime.deep_view(), f_renew_till.deep_view(), f_srealm.deep_view(), None::<Tag<9, PrincipalName>>.deep_view()));
        }
        r
    }
}

/// Read the fields of a [`KrbCredInfo`] from field 8 on.
fn krb_cred_info_parse_8(cs: &Vec<Asn1Value>, i: usize, f_key: Tag<0, EncryptionKey>, f_prealm: Option<Tag<1, Realm>>, f_pname: Option<Tag<2, PrincipalName>>, f_flags: Option<Tag<3, TicketFlags>>, f_authtime: Option<Tag<4, KerberosTime>>, f_starttime: Option<Tag<5, KerberosTime>>, f_endtime: Option<Tag<6, KerberosTime>>, f_renew_till: Option<Tag<7, KerberosTime>>) -> (r: Result<KrbCredInfo, KerlabError>)
    requires
        i <= cs@.len(),
        Tag::<0, EncryptionKey>::view_wf(f_key.deep_view()),
        (match f_prealm {
            Some(x) => Tag::<1, Realm>::view_wf(x.deep_view()),
            None => true,
        }),
        (match f_pname {
            Some(x) => Tag::<2, PrincipalName>::view_wf(x.deep_view()),
            None => true,
        }),
        (match f_flags {
            Some(x) => Tag::<3, TicketFlags>::view_wf(x.deep_view()),
            None => true,
        }),
        (match f_authtime {
            Some(x) => Tag::<4, KerberosTime>::view_wf(x.deep_view()),
            None => true,
        }),
        (match f_starttime {
            Some(x) => Tag::<5, KerberosTime>::view_wf(x.deep_view()),
            None => true,
        }),
        (match f_endtime {
            Some(x) => Tag::<6, KerberosTime>::view_wf(x.deep_view()),
            None => true,
        }),
        (match f_renew_till {
            Some(x) => Tag::<7, KerberosTime>::view_wf(x.deep_view()),
            None => true,
        }),
    ensures
        match r {
            Ok(x) => krb_cred_info_read_8(crate::der::view_list(cs@).skip(i as int), f_key.deep_view(), f_prealm.deep_view(), f_pname.deep_view(), f_flags.deep_view(), f_authtime.deep_view(), f_starttime.deep_view(), f_endtime.deep_view(), f_renew_till.deep_view()) == Some(x.deep_view())
                && KrbCredInfo::view_wf(x.deep_view()),
            Err(e) => krb_cred_info_read_8(crate::der::view_list(cs@).skip(i as int), f_key.deep_view(), f_prealm.deep_view(), f_pname.deep_view(), f_flags.deep_view(), f_authtime.deep_view(), f_starttime.deep_view(), f_endtime.deep_view(), f_renew_till.deep_view()) is None
                && e.spec_kind() == KerlabErrorKind::Parsing,
        },
{
    proof {
        crate::der::lemma_view_list(cs@);
    }
    let ghost vl = crate::der::view_list(cs@);
    if i < cs.len() && is_ctx(&cs[i], 8) {
        proof {
            assert(vl.skip(i as int)[0] == vl[i as int]);
            assert(vl[i as int] == cs@[i as int]@);
        }
        let x = match Tag::<8, Realm>::from_value(&cs[i]) {
            Ok(x) => x,
            Err(e) => {
                return Err(e);
            },
        };
        proof {
            lemma_skip_skip(vl, i as int);
        }
        let r = krb_cred_info_parse_9(cs, i + 1, f_key, f_prealm, f_pname, f_flags, f_authtime, f_starttime, f_endtime, f_renew_till, Some(x));
        proof {
            assert(krb_cred_info_read_8(vl.skip(i as int), f_key.deep_view(), f_prealm.deep_view(), f_pname.deep_view(), f_flags.deep_view(), f_authtime.deep_view(), f_starttime.deep_view(), f_endtime.deep_view(), f_renew_till.deep_view()) == krb_cred_info_read_9(vl.skip(i + 1), f_key.deep_view(), f_prealm.deep_view(), f_pname.deep_view(), f_flags.deep_view(), f_authtime.deep_view(), f_starttime.deep_view(), f_endtime.deep_view(), f_renew_till.deep_view(), Some(x).deep_view()));
        }
        r
    } else {
        proof {
            if i < cs@.len() {
                assert(vl.skip(i as int)[0] == vl[i as int]);
                assert(vl[i as int] == cs@[i as int]@);
            }
        }
        let r = krb_cred_info_parse_9(cs, i, f_key, f_prealm, f_pname, f_flags, f_authtime, f_starttime, f_endtime, f_renew_till, None);
        proof {
            assert(krb_cred_info_read_8(vl.skip(i as int), f_key.deep_view(), f_prealm.deep_view(), f_pname.deep_view(), f_flags.deep_view(), f_authtime.deep_view(), f_starttime.deep_view(), f_endtime.deep_view(), f_renew_till.deep_view()) == krb_cred_info_read_9(vl.skip(i as int), f_key.deep_view(), f_prealm.deep_view(), f_pname.deep_view(), f_flags.deep_view(), f_authtime.deep_view(), f_starttime.deep_view(), f_endtime.deep_view(), f_renew_till.deep_view(), None::<Tag<8, Realm>>.deep_view()));
        }
        r
    }
}

/// Read the fields of a [`KrbCredInfo`] from field 7 on.
fn krb_cred_info_parse_7(cs: &Vec<Asn1Value>, i: usize, f_key: Tag<0, EncryptionKey>, f_prealm: Option<Tag<1, Realm>>, f_pname: Option<Tag<2, PrincipalName>>, f_flags: Option<Tag<3, TicketFlags>>, f_authtime: Option<Tag<4, KerberosTime>>, f_starttime: Option<Tag<5, KerberosTime>>, f_endtime: Option<Tag<6, KerberosTime>>) -> (r: Result<KrbCredInfo, KerlabError>)
    requires
        i <= cs@.len(),
        Tag::<0, EncryptionKey>::view_wf(f_key.deep_view()),
        (match f_prealm {
            Some(x) => Tag::<1, Realm>::view_wf(x.deep_view()),
            None => true,
        }),
        (match f_pname {
            Some(x) => Tag::<2, PrincipalName>::view_wf(x.deep_view()),
            None => true,
        }),
        (match f_flags {
            Some(x) => Tag::<3, TicketFlags>::view_wf(x.deep_view()),
            None => true,
        }),
        (match f_authtime {
            Some(x) => Tag::<4, KerberosTime>::view_wf(x.deep_view()),
            None => true,
        }),
        (match f_starttime {
            Some(x) => Tag::<5, KerberosTime>::view_wf(x.deep_view()),
            None => true,
        }),
        (match f_endtime {
            Some(x) => Tag::<6, KerberosTime>::view_wf(x.deep_view()),
            None => true,
        }),
    ensures
        match r {
            Ok(x) => krb_cred_info_read_7(crate::der::view_list(cs@).skip(i as int), f_key.deep_view(), f_prealm.deep_view(), f_pname.deep_view(), f_flags.deep_view(), f_authtime.deep_view(), f_starttime.deep_view(), f_endtime.deep_view()) == Some(x.deep_view())
                && KrbCredInfo::view_wf(x.deep_view()),
            Err(e) => krb_cred_info_read_7(crate::der::view_list(cs@).skip(i as int), f_key.deep_view(), f_prealm.deep_view(), f_pname.deep_view(), f_flags.deep_view(), f_authtime.deep_view(), f_starttime.deep_view(), f_endtime.deep_view()) is None
                && e.spec_kind() == KerlabErrorKind::Parsing,
        },
{
    proof {
        crate::der::lemma_view_list(cs@);
    }
    let ghost vl = crate::der::view_list(cs@);
    if i < cs.len() && is_ctx(&cs[i], 7) {
        proof {
            assert(vl.skip(i as int)[0] == vl[i as int]);
            assert(vl[i as int] == cs@[i as int]@);
        }
        let x = match Tag::<7, KerberosTime>::from_value(&cs[i]) {
            Ok(x) => x,
            Err(e) => {
                return Err(e);
            },
        };
        proof {
            lemma_skip_skip(vl, i as int);
        }
        let r = krb_cred_info_parse_8(cs, i + 1, f_key, f_prealm, f_pname, f_flags, f_authtime, f_starttime, f_endtime, Some(x));
        proof {
            assert(krb_cred_info_read_7(vl.skip(i as int), f_key.deep_view(), f_prealm.deep_view(), f_pname.deep_view(), f_flags.deep_view(), f_authtime.deep_view(), f_starttime.deep_view(), f_endtime.deep_view()) == krb_cred_info_read_8(vl.skip(i + 1), f_key.deep_view(), f_prealm.deep_view(), f_pname.deep_view(), f_flags.deep_view(), f_authtime.deep_view(), f_starttime.deep_view(), f_endtime.deep_view(), Some(x).deep_view()));
        }
        r
    } else {
        proof {
            if i < cs@.len() {
                assert(vl.skip(i as int)[0] == vl[i as int]);
                assert(vl[i as int] == cs@[i as int]@);
            }
        }
        let r = krb_cred_info_parse_8(cs, i, f_key, f_prealm, f_pname, f_flags, f_authtime, f_starttime, f_endtime, None);
        proof {
            assert(krb_cred_info_read_7(vl.skip(i as int), f_key.deep_view(), f_prealm.deep_view(), f_pname.deep_view(), f_flags.deep_view(), f_authtime.deep_view(), f_starttime.deep_view(), f_endtime.deep_view()) == krb_cred_info_read_8(vl.skip(i as int), f_key.deep_view(), f_prealm.deep_view(), f_pname.deep_view(), f_flags.deep_view(), f_authtime.deep_view(), f_starttime.deep_view(), f_endtime.deep_view(), None::<Tag<7, KerberosTime>>.deep_view()));
        }
        r
    }
}

/// Read the fields of a [`KrbCredInfo`] from field 6 on.
fn krb_cred_info_parse_6(cs: &Vec<Asn1Value>, i: usize, f_key: Tag<0, EncryptionKey>, f_prealm: Option<Tag<1, Realm>>, f_pname: Option<Tag<2, PrincipalName>>, f_flags: Option<Tag<3, TicketFlags>>, f_authtime: Option<Tag<4, KerberosTime>>, f_starttime: Option<Tag<5, KerberosTime>>) -> (r: Result<KrbCredInfo, KerlabError>)
    requires
        i <= cs@.len(),
        Tag::<0, EncryptionKey>::view_wf(f_key.deep_view()),
        (match f_prealm {
            Some(x) => Tag::<1, Realm>::view_wf(x.deep_view()),
            None => true,
        }),
        (match f_pname {
            Some(x) => Tag::<2, PrincipalName>::view_wf(x.deep_view()),
            None => true,
        }),
        (match f_flags {
            Some(x) => Tag::<3, TicketFlags>::view_wf(x.deep_view()),
            None => true,
        }),
        (match f_authtime {
            Some(x) => Tag::<4, KerberosTime>::view_wf(x.deep_view()),
            None => true,
        }),
        (match f_starttime {
            Some(x) => Tag::<5, KerberosTime>::view_wf(x.deep_view()),
            None => true,
        }),
    ensures
        match r {
            Ok(x) => krb_cred_info_read_6(crate::der::view_list(cs@).skip(i as int), f_key.deep_view(), f_prealm.deep_view(), f_pname.deep_view(), f_flags.deep_view(), f_authtime.deep_view(), f_starttime.deep_view()) == Some(x.deep_view())
                && KrbCredInfo::view_wf(x.deep_view()),
            Err(e) => krb_cred_info_read_6(crate::der::view_list(cs@).skip(i as int), f_key.deep_view(), f_prealm.deep_view(), f_pname.deep_view(), f_flags.deep_view(), f_authtime.deep_view(), f_starttime.deep_view()) is None
                && e.spec_kind() == KerlabErrorKind::Parsing,
        },
{
    proof {
        crate::der::lemma_view_list(cs@);
    }
    let ghost vl = crate::der::view_list(cs@);
    if i < cs.len() && is_ctx(&cs[i], 6) {
        proof {
            assert(vl.skip(i as int)[0] == vl[i as int]);
            assert(vl[i as int] == cs@[i as int]@);
        }
        let x = match Tag::<6, KerberosTime>::from_value(&cs[i]) {
            Ok(x) => x,
            Err(e) => {
                return Err(e);
            },
        };
        proof {
            lemma_skip_skip(vl, i as int);
        }
        let r = krb_cred_info_parse_7(cs, i + 1, f_key, f_prealm, f_pname, f_flags, f_authtime, f_starttime, Some(x));
        proof {
            assert(krb_cred_info_read_6(vl.skip(i as int), f_key.deep_view(), f_prealm.deep_view(), f_pname.deep_view(), f_flags.deep_view(), f_authtime.deep_view(), f_starttime.deep_view()) == krb_cred_info_read_7(vl.skip(i + 1), f_key.deep_view(), f_prealm.deep_view(), f_pname.deep_view(), f_flags.deep_view(), f_authtime.deep_view(), f_starttime.deep_view(), Some(x).deep_view()));
        }
        r
    } else {
        proof {
            if i < cs@.len() {
                assert(vl.skip(i as int)[0] == vl[i as int]);
                assert(vl[i as int] == cs@[i as int]@);
            }
        }
        let r = krb_cred_info_parse_7(cs, i, f_key, f_prealm, f_pname, f_flags, f_authtime, f_starttime, None);
        proof {
            assert(krb_cred_info_read_6(vl.skip(i as int), f_key.deep_view(), f_prealm.deep_view(), f_pname.deep_view(), f_flags.deep_view(), f_authtime.deep_view(), f_starttime.deep_view()) == krb_cred_info_read_7(vl.skip(i as int), f_key.deep_view(), f_prealm.deep_view(), f_pname.deep_view(), f_flags.deep_view(), f_authtime.deep_view(), f_starttime.deep_view(), None::<Tag<6, KerberosTime>>.deep_view()));
        }
        r
    }
}

/// Read the fields of a [`KrbCredInfo`] from field 5 on.
fn krb_cred_info_parse_5(cs: &Vec<Asn1Value>, i: usize, f_key: Tag<0, EncryptionKey>, f_prealm: Option<Tag<1, Realm>>, f_pname: Option<Tag<2, PrincipalName>>, f_flags: Option<Tag<3, TicketFlags>>, f_authtime: Option<Tag<4, KerberosTime>>) -> (r: Result<KrbCredInfo, KerlabError>)
    requires
        i <= cs@.len(),
        Tag::<0, EncryptionKey>::view_wf(f_key.deep_view()),
        (match f_prealm {
            Some(x) => Tag::<1, Realm>::view_wf(x.deep_view()),
            None => true,
        }),
        (match f_pname {
            Some(x) => Tag::<2, PrincipalName>::view_wf(x.deep_view()),
            None => true,
        }),
        (match f_flags {
            Some(x) => Tag::<3, TicketFlags>::view_wf(x.deep_view()),
            None => true,
        }),
        (match f_authtime {
            Some(x) => Tag::<4, KerberosTime>::view_wf(x.deep_view()),
            None => true,
        }),
    ensures
        match r {
            Ok(x) => krb_cred_info_read_5(crate::der::view_list(cs@).skip(i as int), f_key.deep_view(), f_prealm.deep_view(), f_pname.deep_view(), f_flags.deep_view(), f_authtime.deep_view()) == Some(x.deep_view())
                && KrbCredInfo::view_wf(x.deep_view()),
            Err(e) => krb_cred_info_read_5(crate::der::view_list(cs@).skip(i as int), f_key.deep_view(), f_prealm.deep_view(), f_pname.deep_view(), f_flags.deep_view(), f_authtime.deep_view()) is None
                && e.spec_kind() == KerlabErrorKind::Parsing,
        },
{
    proof {
        crate::der::lemma_view_list(cs@);
    }
    let ghost vl = crate::der::view_list(cs@);
    if i < cs.len() && is_ctx(&cs[i], 5) {
        proof {
            assert(vl.skip(i as int)[0] == vl[i as int]);
            assert(vl[i as int] == cs@[i as int]@);
        }
        let x = match Tag::<5, KerberosTime>::from_value(&cs[i]) {
            Ok(x) => x,
            Err(e) => {
                return Err(e);
            },
        };
        proof {
            lemma_skip_skip(vl, i as int);
        }
        let r = krb_cred_info_parse_6(cs, i + 1, f_key, f_prealm, f_pname, f_flags, f_authtime, Some(x));
        proof {
            assert(krb_cred_info_read_5(vl.skip(i as int), f_key.deep_view(), f_prealm.deep_view(), f_pname.deep_view(), f_flags.deep_view(), f_authtime.deep_view()) == krb_cred_info_read_6(vl.skip(i + 1), f_key.deep_view(), f_prealm.deep_view(), f_pname.deep_view(), f_flags.deep_view(), f_authtime.deep_view(), Some(x).deep_view()));
        }
        r
    } else {
        proof {
            if i < cs@.len() {
                assert(vl.skip(i as int)[0] == vl[i as int]);
                assert(vl[i as int] == cs@[i as int]@);
            }
        }
        let r = krb_cred_info_parse_6(cs, i, f_key, f_prealm, f_pname, f_flags, f_authtime, None);
        proof {
            assert(krb_cred_info_read_5(vl.skip(i as int), f_key.deep_view(), f_prealm.deep_view(), f_pname.deep_view(), f_flags.deep_view(), f_authtime.deep_view()) == krb_cred_info_read_6(vl.skip(i as int), f_key.deep_view(), f_prealm.deep_view(), f_pname.deep_view(), f_flags.deep_view(), f_authtime.deep_view(), None::<Tag<5, KerberosTime>>.deep_view()));
        }
        r
    }
}

/// Read the fields of a [`KrbCredInfo`] from field 4 on.
fn krb_cred_info_parse_4(cs: &Vec<Asn1Value>, i: usize, f_key: Tag<0, EncryptionKey>, f_prealm: Option<Tag<1, Realm>>, f_pname: Option<Tag<2, PrincipalName>>, f_flags: Option<Tag<3, TicketFlags>>) -> (r: Result<KrbCredInfo, KerlabError>)
    requires
        i <= cs@.len(),
        Tag::<0, EncryptionKey>::view_wf(f_key.deep_view()),
        (match f_prealm {
            Some(x) => Tag::<1, Realm>::view_wf(x.deep_view()),
            None => true,
        }),
        (match f_pname {
            Some(x) => Tag::<2, PrincipalName>::view_wf(x.deep_view()),
            None => true,
        }),
        (match f_flags {
            Some(x) => Tag::<3, TicketFlags>::view_wf(x.deep_view()),
            None => true,
        }),
    ensures
        match r {
            Ok(x) => krb_cred_info_read_4(crate::der::view_list(cs@).skip(i as int), f_key.deep_view(), f_prealm.deep_view(), f_pname.deep_view(), f_flags.deep_view()) == Some(x.deep_view())
                && KrbCredInfo::view_wf(x.deep_view()),
            Err(e) => krb_cred_info_read_4(crate::der::view_list(cs@).skip(i as int), f_key.deep_view(), f_prealm.deep_view(), f_pname.deep_view(), f_flags.deep_view()) is None
                && e.spec_kind() == KerlabErrorKind::Parsing,
        },
{
    proof {
        crate::der::lemma_view_list(cs@);
    }
    let ghost vl = crate::der::view_list(cs@);
    if i < cs.len() && is_ctx(&cs[i], 4) {
        proof {
            assert(vl.skip(i as int)[0] == vl[i as int]);
            assert(vl[i as int] == cs@[i as int]@);
        }
        let x = match Tag::<4, KerberosTime>::from_value(&cs[i]) {
            Ok(x) => x,
            Err(e) => {
                return Err(e);
            },
        };
        proof {
            lemma_skip_skip(vl, i as int);
        }
        let r = krb_cred_info_parse_5(cs, i + 1, f_key, f_prealm, f_pname, f_flags, Some(x));
        proof {
            assert(krb_cred_info_read_4(vl.skip(i as int), f_key.deep_view(), f_prealm.deep_view(), f_pname.deep_view(), f_flags.deep_view()) == krb_cred_info_read_5(vl.skip(i + 1), f_key.deep_view(), f_prealm.deep_view(), f_pname.deep_view(), f_flags.deep_view(), Some(x).deep_view()));
        }
        r
    } else {
        proof {
            if i < cs@.len() {
                assert(vl.skip(i as int)[0] == vl[i as int]);
                assert(vl[i as int] == cs@[i as int]@);
            }
        }
        let r = krb_cred_info_parse_5(cs, i, f_key, f_prealm, f_pname, f_flags, None);
        proof {
            assert(krb_cred_info_read_4(vl.skip(i as int), f_key.deep_view(), f_prealm.deep_view(), f_pname.deep_view(), f_flags.deep_view()) == krb_cred_info_read_5(vl.skip(i as int), f_key.deep_view(), f_prealm.deep_view(), f_pname.deep_view(), f_flags.deep_view(), None::<Tag<4, KerberosTime>>.deep_view()));
        }
        r
    }
}

/// Read the fields of a [`KrbCredInfo`] from field 3 on.
fn krb_cred_info_parse_3(cs: &Vec<Asn1Value>, i: usize, f_key: Tag<0, EncryptionKey>, f_prealm: Option<Tag<1, Realm>>, f_pname: Option<Tag<2, PrincipalName>>) -> (r: Result<KrbCredInfo, KerlabError>)
    requires
        i <= cs@.len(),
        Tag::<0, EncryptionKey>::view_wf(f_key.deep_view()),
        (match f_prealm {
            Some(x) => Tag::<1, Realm>::view_wf(x.deep_view()),
            None => true,
        }),
        (match f_pname {
            Some(x) => Tag::<2, PrincipalName>::view_wf(x.deep_view()),
            None => true,
        }),
    ensures
        match r {
            Ok(x) => krb_cred_info_read_3(crate::der::view_list(cs@).skip(i as int), f_key.deep_view(), f_prealm.deep_view(), f_pname.deep_view()) == Some(x.deep_view())
                && KrbCredInfo::view_wf(x.deep_view()),
            Err(e) => krb_cred_info_read_3(crate::der::view_list(cs@).skip(i as int), f_key.deep_view(), f_prealm.deep_view(), f_pname.deep_view()) is None
                && e.spec_kind() == KerlabErrorKind::Parsing,
        },
{
    proof {
        crate::der::lemma_view_list(cs@);
    }
    let ghost vl = crate::der::view_list(cs@);
    if i < cs.len() && is_ctx(&cs[i], 3) {
        proof {
            assert(vl.skip(i as int)[0] == vl[i as int]);
            assert(vl[i as int] == cs@[i as int]@);
        }
        let x = match Tag::<3, TicketFlags>::from_value(&cs[i]) {
            Ok(x) => x,
            Err(e) => {
                return Err(e);
            },
        };
        proof {
            lemma_skip_skip(vl, i as int);
        }
        let r = krb_cred_info_parse_4(cs, i + 1, f_key, f_prealm, f_pname, Some(x));
        proof {
            assert(krb_cred_info_read_3(vl.skip(i as int), f_key.deep_view(), f_prealm.deep_view(), f_pname.deep_view()) == krb_cred_info_read_4(vl.skip(i + 1), f_key.deep_view(), f_prealm.deep_view(), f_pname.deep_view(), Some(x).deep_view()));
        }
        r
    } else {
        proof {
            if i < cs@.len() {
                assert(vl.skip(i as int)[0] == vl[i as int]);
                assert(vl[i as int] == cs@[i as int]@);
            }
        }
        let r = krb_cred_info_parse_4(cs, i, f_key, f_prealm, f_pname, None);
        proof {
            assert(krb_cred_info_read_3(vl.skip(i as int), f_key.deep_view(), f_prealm.deep_view(), f_pname.deep_view()) == krb_cred_info_read_4(vl.skip(i as int), f_key.deep_view(), f_prealm.deep_view(), f_pname.deep_view(), None::<Tag<3, TicketFlags>>.deep_view()));
        }
        r
    }
}

/// Read the fields of a [`KrbCredInfo`] from field 2 on.
fn krb_cred_info_parse_2(cs: &Vec<Asn1Value>, i: usize, f_key: Tag<0, EncryptionKey>, f_prealm: Option<Tag<1, Realm>>) -> (r: Result<KrbCredInfo, KerlabError>)
    requires
        i <= cs@.len(),
        Tag::<0, EncryptionKey>::view_wf(f_key.deep_view()),
        (match f_prealm {
            Some(x) => Tag::<1, Realm>::view_wf(x.deep_view()),
            None => true,
        }),
    ensures
        match r {
            Ok(x) => krb_cred_info_read_2(crate::der::view_list(cs@).skip(i as int), f_key.deep_view(), f_prealm.deep_view()) == Some(x.deep_view())
                && KrbCredInfo::view_wf(x.deep_view()),
            Err(e) => krb_cred_info_read_2(crate::der::view_list(cs@).skip(i as int), f_key.deep_view(), f_prealm.deep_view()) is None
                && e.spec_kind() == KerlabErrorKind::Parsing,
        },
{
    proof {
        crate::der::lemma_view_list(cs@);
    }
    let ghost vl = crate::der::view_list(cs@);
    if i < cs.len() && is_ctx(&cs[i], 2) {
        proof {
            assert(vl.skip(i as int)[0] == vl[i as int]);
            assert(vl[i as int] == cs@[i as int]@);
        }
        let x = match Tag::<2, PrincipalName>::from_value(&cs[i]) {
            Ok(x) => x,
            Err(e) => {
                return Err(e);
            },
        };
        proof {
            lemma_skip_skip(vl, i as int);
        }
        let r = krb_cred_info_parse_3(cs, i + 1, f_key, f_prealm, Some(x));
        proof {
            assert(krb_cred_info_read_2(vl.skip(i as int), f_key.deep_view(), f_prealm.deep_view()) == krb_cred_info_read_3(vl.skip(i + 1), f_key.deep_view(), f_prealm.deep_view(), Some(x).deep_view()));
        }
        r
    } else {
        proof {
            if i < cs@.len() {
                assert(vl.skip(i as int)[0] == vl[i as int]);
                assert(vl[i as int] == cs@[i as int]@);
            }
        }
        let r = krb_cred_info_parse_3(cs, i, f_key, f_prealm, None);
        proof {
            assert(krb_cred_info_read_2(vl.skip(i as int), f_key.deep_view(), f_prealm.deep_view()) == krb_cred_info_read_3(vl.skip(i as int), f_key.deep_view(), f_prealm.deep_view(), None::<Tag<2, PrincipalName>>.deep_view()));
        }
        r
    }
}

/// Read the fields of a [`KrbCredInfo`] from field 1 on.
fn krb_cred_info_parse_1(cs: &Vec<Asn1Value>, i: usize, f_key: Tag<0, EncryptionKey>) -> (r: Result<KrbCredInfo, KerlabError>)
    requires
        i <= cs@.len(),
        Tag::<0, EncryptionKey>::view_wf(f_key.deep_view()),
    ensures
        match r {
            Ok(x) => krb_cred_info_read_1(crate::der::view_list(cs@).skip(i as int), f_key.deep_view()) == Some(x.deep_view())
                && KrbCredInfo::view_wf(x.deep_view()),
            Err(e) => krb_cred_info_read_1(crate::der::view_list(cs@).skip(i as int), f_key.deep_view()) is None
                && e.spec_kind() == KerlabErrorKind::Parsing,
        },
{
    proof {
        crate::der::lemma_view_list(cs@);
    }
    let ghost vl = crate::der::view_list(cs@);
    if i < cs.len() && is_ctx(&cs[i], 1) {
        proof {
            assert(vl.skip(i as int)[0] == vl[i as int]);
            assert(vl[i as int] == cs@[i as int]@);
        }
        let x = match Tag::<1, Realm>::from_value(&cs[i]) {
            Ok(x) => x,
            Err(e) => {
                return Err(e);
            },
        };
        proof {
            lemma_skip_skip(vl, i as int);
        }
        let r = krb_cred_info_parse_2(cs, i + 1, f_key, Some(x));
        proof {
            assert(krb_cred_info_read_1(vl.skip(i as int), f_key.deep_view()) == krb_cred_info_read_2(vl.skip(i + 1), f_key.deep_view(), Some(x).deep_view()));
        }
        r
    } else {
        proof {
            if i < cs@.len() {
                assert(vl.skip(i as int)[0] == vl[i as int]);
                assert(vl[i as int] == cs@[i as int]@);
            }
        }
        let r = krb_cred_info_parse_2(cs, i, f_key, None);
        proof {
            assert(krb_cred_info_read_1(vl.skip(i as int), f_key.deep_view()) == krb_cred_info_read_2(vl.skip(i as int), f_key.deep_view(), None::<Tag<1, Realm>>.deep_view()));
        }
        r
    }
}

/// Read the fields of a [`KrbCredInfo`] from field 0 on.
fn krb_cred_info_parse_0(cs: &Vec<Asn1Value>, i: usize) -> (r: Result<KrbCredInfo, KerlabError>)
    requires
        i <= cs@.len(),
    ensures
        match r {
            Ok(x) => krb_cred_info_read_0(crate::der::view_list(cs@).skip(i as int)) == Some(x.deep_view())
                && KrbCredInfo::view_wf(x.deep_view()),
            Err(e) => krb_cred_info_read_0(crate::der::view_list(cs@).skip(i as int)) is None
                && e.spec_kind() == KerlabErrorKind::Parsing,
        },
{
    proof {
        crate::der::lemma_view_list(cs@);
    }
    let ghost vl = crate::der::view_list(cs@);
    if i >= cs.len() {
        proof {
            assert(vl.skip(i as int).len() == 0);
        }
        return Err(KerlabError::new(KerlabErrorKind::Parsing, "missing field"));
    }
    proof {
        assert(vl.skip(i as int)[0] == vl[i as int]);
        assert(vl[i as int] == cs@[i as int]@);
    }
    let x = match Tag::<0, EncryptionKey>::from_value(&cs[i]) {
        Ok(x) => x,
        Err(e) => {
            return Err(e);
        },
    };
    proof {
        lemma_skip_skip(vl, i as int);
    }
    let r = krb_cred_info_parse_1(cs, i + 1, x);
    proof {
        assert(krb_cred_info_read_0(vl.skip(i as int)) == krb_cred_info_read_1(vl.skip(i + 1), x.deep_view()));
    }
    r
}

/// Reading no children past the last field yields the view back.
proof fn krb_cred_info_rt_11(v: KrbCredInfoView)
    requires
        KrbCredInfo::view_wf(v),
    ensures
        krb_cred_info_read_11(krb_cred_info_write_11(v), v.key, v.prealm, v.pname, v.flags, v.authtime, v.starttime, v.endtime, v.renew_till, v.srealm, v.sname, v.caddr) == Some(v),
        forall|j: int| 0 <= j < krb_cred_info_write_11(v).len() ==> value_wf(#[trigger] krb_cred_info_write_11(v)[j]),
{
    assert(krb_cred_info_write_11(v).len() == 0);
    assert((KrbCredInfoView { key: v.key, prealm: v.prealm, pname: v.pname, flags: v.flags, authtime: v.authtime, starttime: v.starttime, endtime: v.endtime, renew_till: v.renew_till, srealm: v.srealm, sname: v.sname, caddr: v.caddr }) =~= v);
}

/// Reading the children written from field 10 on yields the view back.
proof fn krb_cred_info_rt_10(v: KrbCredInfoView)
    requires
        KrbCredInfo::view_wf(v),
    ensures
        krb_cred_info_read_10(krb_cred_info_write_10(v), v.key, v.prealm, v.pname, v.flags, v.authtime, v.starttime, v.endtime, v.renew_till, v.srealm, v.sname) == Some(v),
        forall|j: int| 0 <= j < krb_cred_info_write_10(v).len() ==> value_wf(#[trigger] krb_cred_info_write_10(v)[j]),
{
    krb_cred_info_rt_11(v);
    match v.caddr {
        Some(x) => {
            Tag::<10, HostAddresses>::lemma_round_trip(x);
            assert(krb_cred_info_write_10(v) == seq![Tag::<10, HostAddresses>::spec_to_value(x)] + krb_cred_info_write_11(v));
            assert(krb_cred_info_write_10(v)[0] == Tag::<10, HostAddresses>::spec_to_value(x));
            assert(has_ctx(krb_cred_info_write_10(v)[0], 10));
            lemma_cons_skip(Tag::<10, HostAddresses>::spec_to_value(x), krb_cred_info_write_11(v));
            assert(krb_cred_info_read_10(krb_cred_info_write_10(v), v.key, v.prealm, v.pname, v.flags, v.authtime, v.starttime, v.endtime, v.renew_till, v.srealm, v.sname) == krb_cred_info_read_11(krb_cred_info_write_11(v), v.key, v.prealm, v.pname, v.flags, v.authtime, v.starttime, v.endtime, v.renew_till, v.srealm, v.sname, Some(x)));
            assert forall|j: int| 0 <= j < krb_cred_info_write_10(v).len() implies value_wf(#[trigger] krb_cred_info_write_10(v)[j]) by {
                if j >= 1 {
                    assert(krb_cred_info_write_10(v)[j] == krb_cred_info_write_11(v)[j - 1]);
                }
            }
        },
        None => {
            assert(krb_cred_info_write_10(v) == krb_cred_info_write_11(v));
            if krb_cred_info_write_11(v).len() > 0 {
                assert(!has_ctx(krb_cred_info_write_11(v)[0], 10));
            }
            assert(krb_cred_info_read_10(krb_cred_info_write_10(v), v.key, v.prealm, v.pname, v.flags, v.authtime, v.starttime, v.endtime, v.renew_till, v.srealm, v.sname) == krb_cred_info_read_11(krb_cred_info_write_11(v), v.key, v.prealm, v.pname, v.flags, v.authtime, v.starttime, v.endtime, v.renew_till, v.srealm, v.sname, None::<Seq<HostAddressView>>));
        },
    }
}

/// Reading the children written from field 9 on yields the view back.
proof fn krb_cred_info_rt_9(v: KrbCredInfoView)
    requires
        KrbCredInfo::view_wf(v),
    ensures
        krb_cred_info_read_9(krb_cred_info_write_9(v), v.key, v.prealm, v.pname, v.flags, v.authtime, v.starttime, v.endtime, v.renew_till, v.srealm) == Some(v),
        forall|j: int| 0 <= j < krb_cred_info_write_9(v).len() ==> value_wf(#[trigger] krb_cred_info_write_9(v)[j]),
{
    krb_cred_info_rt_10(v);
    match v.sname {
        Some(x) => {
            Tag::<9, PrincipalName>::lemma_round_trip(x);
            assert(krb_cred_info_write_9(v) == seq![Tag::<9, PrincipalName>::spec_to_value(x)] + krb_cred_info_write_10(v));
            assert(krb_cred_info_write_9(v)[0] == Tag::<9, PrincipalName>::spec_to_value(x));
            assert(has_ctx(krb_cred_info_write_9(v)[0], 9));
            lemma_cons_skip(Tag::<9, PrincipalName>::spec_to_value(x), krb_cred_info_write_10(v));
            assert(krb_cred_info_read_9(krb_cred_info_write_9(v), v.key, v.prealm, v.pname, v.flags, v.authtime, v.starttime, v.endtime, v.renew_till, v.srealm) == krb_cred_info_read_10(krb_cred_info_write_10(v), v.key, v.prealm, v.pname, v.flags, v.authtime, v.starttime, v.endtime, v.renew_till, v.srealm, Some(x)));
            assert forall|j: int| 0 <= j < krb_cred_info_write_9(v).len() implies value_wf(#[trigger] krb_cred_info_write_9(v)[j]) by {
                if j >= 1 {
                    assert(krb_cred_info_write_9(v)[j] == krb_cred_info_write_10(v)[j - 1]);
                }
            }
        },
        None => {
            assert(krb_cred_info_write_9(v) == krb_cred_info_write_10(v));
            if krb_cred_info_write_10(v).len() > 0 {
                assert(!has_ctx(krb_cred_info_write_10(v)[0], 9));
            }
            assert(krb_cred_info_read_9(krb_cred_info_write_9(v), v.key, v.prealm, v.pname, v.flags, v.authtime, v.starttime, v.endtime, v.renew_till, v.srealm) == krb_cred_info_read_10(krb_cred_info_write_10(v), v.key, v.prealm, v.pname, v.flags, v.authtime, v.starttime, v.endtime, v.renew_till, v.srealm, None::<PrincipalNameView>));
        },
    }
}

/// Reading the children written from field 8 on yields the view back.
proof fn krb_cred_info_rt_8(v: KrbCredInfoView)
    requires
        KrbCredInfo::view_wf(v),
    ensures
        krb_cred_info_read_8(krb_cred_info_write_8(v), v.key, v.prealm, v.pname, v.flags, v.authtime, v.starttime, v.endtime, v.renew_till) == Some(v),
        forall|j: int| 0 <= j < krb_cred_info_write_8(v).len() ==> value_wf(#[trigger] krb_cred_info_write_8(v)[j]),
{
    krb_cred_info_rt_9(v);
    match v.srealm {
        Some(x) => {
            Tag::<8, Realm>::lemma_round_trip(x);
            assert(krb_cred_info_write_8(v) == seq![Tag::<8, Realm>::spec_to_value(x)] + krb_cred_info_write_9(v));
            assert(krb_cred_info_write_8(v)[0] == Tag::<8, Realm>::spec_to_value(x));
            assert(has_ctx(krb_cred_info_write_8(v)[0], 8));
            lemma_cons_skip(Tag::<8, Realm>::spec_to_value(x), krb_cred_info_write_9(v));
            assert(krb_cred_info_read_8(krb_cred_info_write_8(v), v.key, v.prealm, v.pname, v.flags, v.authtime, v.starttime, v.endtime, v.renew_till) == krb_cred_info_read_9(krb_cred_info_write_9(v), v.key, v.prealm, v.pname, v.flags, v.authtime, v.starttime, v.endtime, v.renew_till, Some(x)));
            assert forall|j: int| 0 <= j < krb_cred_info_write_8(v).len() implies value_wf(#[trigger] krb_cred_info_write_8(v)[j]) by {
                if j >= 1 {
                    assert(krb_cred_info_write_8(v)[j] == krb_cred_info_write_9(v)[j - 1]);
                }
            }
        },
        None => {
            assert(krb_cred_info_write_8(v) == krb_cred_info_write_9(v));
            if krb_cred_info_write_9(v).len() > 0 {
                assert(!has_ctx(krb_cred_info_write_9(v)[0], 8));
            }
            assert(krb_cred_info_read_8(krb_cred_info_write_8(v), v.key, v.prealm, v.pname, v.flags, v.authtime, v.starttime, v.endtime, v.renew_till) == krb_cred_info_read_9(krb_cred_info_write_9(v), v.key, v.prealm, v.pname, v.flags, v.authtime, v.starttime, v.endtime, v.renew_till, None::<Seq<u8>>));
        },
    }
}

/// Reading the children written from field 7 on yields the view back.
proof fn krb_cred_info_rt_7(v: KrbCredInfoView)
    requires
        KrbCredInfo::view_wf(v),
    ensures
        krb_cred_info_read_7(krb_cred_info_write_7(v), v.key, v.prealm, v.pname, v.flags, v.authtime, v.starttime, v.endtime) == Some(v),
        forall|j: int| 0 <= j < krb_cred_info_write_7(v).len() ==> value_wf(#[trigger] krb_cred_info_write_7(v)[j]),
{
    krb_cred_info_rt_8(v);
    match v.renew_till {
        Some(x) => {
            Tag::<7, KerberosTime>::lemma_round_trip(x);
            assert(krb_cred_info_write_7(v) == seq![Tag::<7, KerberosTime>::spec_to_value(x)] + krb_cred_info_write_8(v));
            assert(krb_cred_info_write_7(v)[0] == Tag::<7, KerberosTime>::spec_to_value(x));
            assert(has_ctx(krb_cred_info_write_7(v)[0], 7));
            lemma_cons_skip(Tag::<7, KerberosTime>::spec_to_value(x), krb_cred_info_write_8(v));
            assert(krb_cred_info_read_7(krb_cred_info_write_7(v), v.key, v.prealm, v.pname, v.flags, v.authtime, v.starttime, v.endtime) == krb_cred_info_read_8(krb_cred_info_write_8(v), v.key, v.prealm, v.pname, v.flags, v.authtime, v.starttime, v.endtime, Some(x)));
            assert forall|j: int| 0 <= j < krb_cred_info_write_7(v).len() implies value_wf(#[trigger] krb_cred_info_write_7(v)[j]) by {
                if j >= 1 {
                    assert(krb_cred_info_write_7(v)[j] == krb_cred_info_write_8(v)[j - 1]);
                }
            }
        },
        None => {
            assert(krb_cred_info_write_7(v) == krb_cred_info_write_8(v));
            if krb_cred_info_write_8(v).len() > 0 {
                assert(!has_ctx(krb_cred_info_write_8(v)[0], 7));
            }
            assert(krb_cred_info_read_7(krb_cred_info_write_7(v), v.key, v.prealm, v.pname, v.flags, v.authtime, v.starttime, v.endtime) == krb_cred_info_read_8(krb_cred_info_write_8(v), v.key, v.prealm, v.pname, v.flags, v.authtime, v.starttime, v.endtime, None::<GeneralizedTime>));
        },
    }
}

/// Reading the children written from field 6 on yields the view back.
proof fn krb_cred_info_rt_6(v: KrbCredInfoView)
    requires
        KrbCredInfo::view_wf(v),
    ensures
        krb_cred_info_read_6(krb_cred_info_write_6(v), v.key, v.prealm, v.pname, v.flags, v.authtime, v.starttime) == Some(v),
        forall|j: int| 0 <= j < krb_cred_info_write_6(v).len() ==> value_wf(#[trigger] krb_cred_info_write_6(v)[j]),
{
    krb_cred_info_rt_7(v);
    match v.endtime {
        Some(x) => {
            Tag::<6, KerberosTime>::lemma_round_trip(x);
            assert(krb_cred_info_write_6(v) == seq![Tag::<6, KerberosTime>::spec_to_value(x)] + krb_cred_info_write_7(v));
            assert(krb_cred_info_write_6(v)[0] == Tag::<6, KerberosTime>::spec_to_value(x));
            assert(has_ctx(krb_cred_info_write_6(v)[0], 6));
            lemma_cons_skip(Tag::<6, KerberosTime>::spec_to_value(x), krb_cred_info_write_7(v));
            assert(krb_cred_info_read_6(krb_cred_info_write_6(v), v.key, v.prealm, v.pname, v.flags, v.authtime, v.starttime) == krb_cred_info_read_7(krb_cred_info_write_7(v), v.key, v.prealm, v.pname, v.flags, v.authtime, v.starttime, Some(x)));
            assert forall|j: int| 0 <= j < krb_cred_info_write_6(v).len() implies value_wf(#[trigger] krb_cred_info_write_6(v)[j]) by {
                if j >= 1 {
                    assert(krb_cred_info_write_6(v)[j] == krb_cred_info_write_7(v)[j - 1]);
                }
            }
        },
        None => {
            assert(krb_cred_info_write_6(v) == krb_cred_info_write_7(v));
            if krb_cred_info_write_7(v).len() > 0 {
                assert(!has_ctx(krb_cred_info_write_7(v)[0], 6));
            }
            assert(krb_cred_info_read_6(krb_cred_info_write_6(v), v.key, v.prealm, v.pname, v.flags, v.authtime, v.starttime) == krb_cred_info_read_7(krb_cred_info_write_7(v), v.key, v.prealm, v.pname, v.flags, v.authtime, v.starttime, None::<GeneralizedTime>));
        },
    }
}

/// Reading the children written from field 5 on yields the view back.
proof fn krb_cred_info_rt_5(v: KrbCredInfoView)
    requires
        KrbCredInfo::view_wf(v),
    ensures
        krb_cred_info_read_5(krb_cred_info_write_5(v), v.key, v.prealm, v.pname, v.flags, v.authtime) == Some(v),
        forall|j: int| 0 <= j < krb_cred_info_write_5(v).len() ==> value_wf(#[trigger] krb_cred_info_write_5(v)[j]),
{
    krb_cred_info_rt_6(v);
    match v.starttime {
        Some(x) => {
            Tag::<5, KerberosTime>::lemma_round_trip(x);
            assert(krb_cred_info_write_5(v) == seq![Tag::<5, KerberosTime>::spec_to_value(x)] + krb_cred_info_write_6(v));
            assert(krb_cred_info_write_5(v)[0] == Tag::<5, KerberosTime>::spec_to_value(x));
            assert(has_ctx(krb_cred_info_write_5(v)[0], 5));
            lemma_cons_skip(Tag::<5, KerberosTime>::spec_to_value(x), krb_cred_info_write_6(v));
            assert(krb_cred_info_read_5(krb_cred_info_write_5(v), v.key, v.prealm, v.pname, v.flags, v.authtime) == krb_cred_info_read_6(krb_cred_info_write_6(v), v.key, v.prealm, v.pname, v.flags, v.authtime, Some(x)));
            assert forall|j: int| 0 <= j < krb_cred_info_write_5(v).len() implies value_wf(#[trigger] krb_cred_info_write_5(v)[j]) by {
                if j >= 1 {
                    assert(krb_cred_info_write_5(v)[j] == krb_cred_info_write_6(v)[j - 1]);
                }
            }
        },
        None => {
            assert(krb_cred_info_write_5(v) == krb_cred_info_write_6(v));
            if krb_cred_info_write_6(v).len() > 0 {
                assert(!has_ctx(krb_cred_info_write_6(v)[0], 5));
            }
            assert(krb_cred_info_read_5(krb_cred_info_write_5(v), v.key, v.prealm, v.pname, v.flags, v.authtime) == krb_cred_info_read_6(krb_cred_info_write_6(v), v.key, v.prealm, v.pname, v.flags, v.authtime, None::<GeneralizedTime>));
        },
    }
}

/// Reading the children written from field 4 on yields the view back.
proof fn krb_cred_info_rt_4(v: KrbCredInfoView)
    requires
        KrbCredInfo::view_wf(v),
    ensures
        krb_cred_info_read_4(krb_cred_info_write_4(v), v.key, v.prealm, v.pname, v.flags) == Some(v),
        forall|j: int| 0 <= j < krb_cred_info_write_4(v).len() ==> value_wf(#[trigger] krb_cred_info_write_4(v)[j]),
{
    krb_cred_info_rt_5(v);
    match v.authtime {
        Some(x) => {
            Tag::<4, KerberosTime>::lemma_round_trip(x);
            assert(krb_cred_info_write_4(v) == seq![Tag::<4, KerberosTime>::spec_to_value(x)] + krb_cred_info_write_5(v));
            assert(krb_cred_info_write_4(v)[0] == Tag::<4, KerberosTime>::spec_to_value(x));
            assert(has_ctx(krb_cred_info_write_4(v)[0], 4));
            lemma_cons_skip(Tag::<4, KerberosTime>::spec_to_value(x), krb_cred_info_write_5(v));
            assert(krb_cred_info_read_4(krb_cred_info_write_4(v), v.key, v.prealm, v.pname, v.flags) == krb_cred_info_read_5(krb_cred_info_write_5(v), v.key, v.prealm, v.pname, v.flags, Some(x)));
            assert forall|j: int| 0 <= j < krb_cred_info_write_4(v).len() implies value_wf(#[trigger] krb_cred_info_write_4(v)[j]) by {
                if j >= 1 {
                    assert(krb_cred_info_write_4(v)[j] == krb_cred_info_write_5(v)[j - 1]);
                }
            }
        },
        None => {
            assert(krb_cred_info_write_4(v) == krb_cred_info_write_5(v));
            if krb_cred_info_write_5(v).len() > 0 {
                assert(!has_ctx(krb_cred_info_write_5(v)[0], 4));
            }
            assert(krb_cred_info_read_4(krb_cred_info_write_4(v), v.key, v.prealm, v.pname, v.flags) == krb_cred_info_read_5(krb_cred_info_write_5(v), v.key, v.prealm, v.pname, v.flags, None::<GeneralizedTime>));
        },
    }
}

/// Reading the children written from field 3 on yields the view back.
proof fn krb_cred_info_rt_3(v: KrbCredInfoView)
    requires
        KrbCredInfo::view_wf(v),
    ensures
        krb_cred_info_read_3(krb_cred_info_write_3(v), v.key, v.prealm, v.pname) == Some(v),
        forall|j: int| 0 <= j < krb_cred_info_write_3(v).len() ==> value_wf(#[trigger] krb_cred_info_write_3(v)[j]),
{
    krb_cred_info_rt_4(v);
    match v.flags {
        Some(x) => {
            Tag::<3, TicketFlags>::lemma_round_trip(x);
            assert(krb_cred_info_write_3(v) == seq![Tag::<3, TicketFlags>::spec_to_value(x)] + krb_cred_info_write_4(v));
            assert(krb_cred_info_write_3(v)[0] == Tag::<3, TicketFlags>::spec_to_value(x));
            assert(has_ctx(krb_cred_info_write_3(v)[0], 3));
            lemma_cons_skip(Tag::<3, TicketFlags>::spec_to_value(x), krb_cred_info_write_4(v));
            assert(krb_cred_info_read_3(krb_cred_info_write_3(v), v.key, v.prealm, v.pname) == krb_cred_info_read_4(krb_cred_info_write_4(v), v.key, v.prealm, v.pname, Some(x)));
            assert forall|j: int| 0 <= j < krb_cred_info_write_3(v).len() implies value_wf(#[trigger] krb_cred_info_write_3(v)[j]) by {
                if j >= 1 {
                    assert(krb_cred_info_write_3(v)[j] == krb_cred_info_write_4(v)[j - 1]);
                }
            }
        },
        None => {
            assert(krb_cred_info_write_3(v) == krb_cred_info_write_4(v));
            if krb_cred_info_write_4(v).len() > 0 {
                assert(!has_ctx(krb_cred_info_write_4(v)[0], 3));
            }
            assert(krb_cred_info_read_3(krb_cred_info_write_3(v), v.key, v.prealm, v.pname) == krb_cred_info_read_4(krb_cred_info_write_4(v), v.key, v.prealm, v.pname, None::<BitStringView>));
        },
    }
}

/// Reading the children written from field 2 on yields the view back.
proof fn krb_cred_info_rt_2(v: KrbCredInfoView)
    requires
        KrbCredInfo::view_wf(v),
    ensures
        krb_cred_info_read_2(krb_cred_info_write_2(v), v.key, v.prealm) == Some(v),
        forall|j: int| 0 <= j < krb_cred_info_write_2(v).len() ==> value_wf(#[trigger] krb_cred_info_write_2(v)[j]),
{
    krb_cred_info_rt_3(v);
    match v.pname {
        Some(x) => {
            Tag::<2, PrincipalName>::lemma_round_trip(x);
            assert(krb_cred_info_write_2(v) == seq![Tag::<2, PrincipalName>::spec_to_value(x)] + krb_cred_info_write_3(v));
            assert(krb_cred_info_write_2(v)[0] == Tag::<2, PrincipalName>::spec_to_value(x));
            assert(has_ctx(krb_cred_info_write_2(v)[0], 2));
            lemma_cons_skip(Tag::<2, PrincipalName>::spec_to_value(x), krb_cred_info_write_3(v));
            assert(krb_cred_info_read_2(krb_cred_info_write_2(v), v.key, v.prealm) == krb_cred_info_read_3(krb_cred_info_write_3(v), v.key, v.prealm, Some(x)));
            assert forall|j: int| 0 <= j < krb_cred_info_write_2(v).len() implies value_wf(#[trigger] krb_cred_info_write_2(v)[j]) by {
                if j >= 1 {
                    assert(krb_cred_info_write_2(v)[j] == krb_cred_info_write_3(v)[j - 1]);
                }
            }
        },
        None => {
            assert(krb_cred_info_write_2(v) == krb_cred_info_write_3(v));
            if krb_cred_info_write_3(v).len() > 0 {
                assert(!has_ctx(krb_cred_info_write_3(v)[0], 2));
            }
            assert(krb_cred_info_read_2(krb_cred_info_write_2(v), v.key, v.prealm) == krb_cred_info_read_3(krb_cred_info_write_3(v), v.key, v.prealm, None::<PrincipalNameView>));
        },
    }
}

/// Reading the children written from field 1 on yields the view back.
proof fn krb_cred_info_rt_1(v: KrbCredInfoView)
    requires
        KrbCredInfo::view_wf(v),
    ensures
        krb_cred_info_read_1(krb_cred_info_write_1(v), v.key) == Some(v),
        forall|j: int| 0 <= j < krb_cred_info_write_1(v).len() ==> value_wf(#[trigger] krb_cred_info_write_1(v)[j]),
{
    krb_cred_info_rt_2(v);
    match v.prealm {
        Some(x) => {
            Tag::<1, Realm>::lemma_round_trip(x);
            assert(krb_cred_info_write_1(v) == seq![Tag::<1, Realm>::spec_to_value(x)] + krb_cred_info_write_2(v));
            assert(krb_cred_info_write_1(v)[0] == Tag::<1, Realm>::spec_to_value(x));
            assert(has_ctx(krb_cred_info_write_1(v)[0], 1));
            lemma_cons_skip(Tag::<1, Realm>::spec_to_value(x), krb_cred_info_write_2(v));
            assert(krb_cred_info_read_1(krb_cred_info_write_1(v), v.key) == krb_cred_info_read_2(krb_cred_info_write_2(v), v.key, Some(x)));
            assert forall|j: int| 0 <= j < krb_cred_info_write_1(v).len() implies value_wf(#[trigger] krb_cred_info_write_1(v)[j]) by {
                if j >= 1 {
                    assert(krb_cred_info_write_1(v)[j] == krb_cred_info_write_2(v)[j - 1]);
                }
            }
        },
        None => {
            assert(krb_cred_info_write_1(v) == krb_cred_info_write_2(v));
            if krb_cred_info_write_2(v).len() > 0 {
                assert(!has_ctx(krb_cred_info_write_2(v)[0], 1));
            }
            assert(krb_cred_info_read_1(krb_cred_info_write_1(v), v.key) == krb_cred_info_read_2(krb_cred_info_write_2(v), v.key, None::<Seq<u8>>));
        },
    }
}

/// Reading the children written from field 0 on yields the view back.
proof fn krb_cred_info_rt_0(v: KrbCredInfoView)
    requires
        KrbCredInfo::view_wf(v),
    ensures
        krb_cred_info_read_0(krb_cred_info_write_0(v)) == Some(v),
        forall|j: int| 0 <= j < krb_cred_info_write_0(v).len() ==> value_wf(#[trigger] krb_cred_info_write_0(v)[j]),
{
    krb_cred_info_rt_1(v);
    Tag::<0, EncryptionKey>::lemma_round_trip(v.key);
    assert(krb_cred_info_write_0(v) == seq![Tag::<0, EncryptionKey>::spec_to_value(v.key)] + krb_cred_info_write_1(v));
    assert(krb_cred_info_write_0(v)[0] == Tag::<0, EncryptionKey>::spec_to_value(v.key));
    assert(has_ctx(krb_cred_info_write_0(v)[0], 0));
    lemma_cons_skip(Tag::<0, EncryptionKey>::spec_to_value(v.key), krb_cred_info_write_1(v));
    assert(krb_cred_info_read_0(krb_cred_info_write_0(v)) == krb_cred_info_read_1(krb_cred_info_write_1(v), v.key));
    assert forall|j: int| 0 <= j < krb_cred_info_write_0(v).len() implies value_wf(#[trigger] krb_cred_info_write_0(v)[j]) by {
        if j >= 1 {
            assert(krb_cred_info_write_0(v)[j] == krb_cred_info_write_1(v)[j - 1]);
        }
    }
}

/// The (nominally encrypted) part of a KRB-CRED: the ticket infos.
#[derive(Debug, Clone, PartialEq, Default)]
pub struct EncKrbCredPartBody {
    pub ticket_info: Tag<0, SequenceOf<KrbCredInfo>>,
    pub nonce: Option<Tag<1, Integer>>,
    pub timestamp: Option<Tag<2, KerberosTime>>,
    pub usec: Option<Tag<3, Integer>>,
    pub s_address: Option<Tag<4, HostAddress>>,
    pub r_address: Option<Tag<5, HostAddress>>,
}

/// The deep view of [`EncKrbCredPartBody`].
#[verifier::ext_equal]
pub struct EncKrbCredPartBodyView {
    pub ticket_info: Seq<KrbCredInfoView>,
    pub nonce: Option<u32>,
    pub timestamp: Option<GeneralizedTime>,
    pub usec: Option<u32>,
    pub s_address: Option<HostAddressView>,
    pub r_address: Option<HostAddressView>,
}

impl DeepView for EncKrbCredPartBody {
    type V = EncKrbCredPartBodyView;

    open spec fn deep_view(&self) -> EncKrbCredPartBodyView {
        EncKrbCredPartBodyView {
            ticket_info: self.ticket_info.deep_view(),
            nonce: self.nonce.deep_view(),
            timestamp: self.timestamp.deep_view(),
            usec: self.usec.deep_view(),
            s_address: self.s_address.deep_view(),
            r_address: self.r_address.deep_view(),
        }
    }
}

/// The children a [`EncKrbCredPartBody`] writes from its field 0 on.
pub open spec fn enc_krb_cred_part_body_write_0(v: EncKrbCredPartBodyView) -> Seq<AsnValue> {
    seq![Tag::<0, SequenceOf<KrbCredInfo>>::spec_to_value(v.ticket_info)] + enc_krb_cred_part_body_write_1(v)
}

/// The children a [`EncKrbCredPartBody`] writes from its field 1 on.
pub open spec fn enc_krb_cred_part_body_write_1(v: EncKrbCredPartBodyView) -> Seq<AsnValue> {
    match v.nonce {
        Some(x) => seq![Tag::<1, Integer>::spec_to_value(x)] + enc_krb_cred_part_body_write_2(v),
        None => enc_krb_cred_part_body_write_2(v),
    }
}

/// The children a [`EncKrbCredPartBody`] writes from its field 2 on.
pub open spec fn enc_krb_cred_part_body_write_2(v: EncKrbCredPartBodyView) -> Seq<AsnValue> {
    match v.timestamp {
        Some(x) => seq![Tag::<2, KerberosTime>::spec_to_value(x)] + enc_krb_cred_part_body_write_3(v),
        None => enc_krb_cred_part_body_write_3(v),
    }
}

/// The children a [`EncKrbCredPartBody`] writes from its field 3 on.
pub open spec fn enc_krb_cred_part_body_write_3(v: EncKrbCredPartBodyView) -> Seq<AsnValue> {
    match v.usec {
        Some(x) => seq![Tag::<3, Integer>::spec_to_value(x)] + enc_krb_cred_part_body_write_4(v),
        None => enc_krb_cred_part_body_write_4(v),
    }
}

/// The children a [`EncKrbCredPartBody`] writes from its field 4 on.
pub open spec fn enc_krb_cred_part_body_write_4(v: EncKrbCredPartBodyView) -> Seq<AsnValue> {
    match v.s_address {
        Some(x) => seq![Tag::<4, HostAddress>::spec_to_value(x)] + enc_krb_cred_part_body_write_5(v),
        None => enc_krb_cred_part_body_write_5(v),
    }
}

/// The children a [`EncKrbCredPartBody`] writes from its field 5 on.
pub open spec fn enc_krb_cred_part_body_write_5(v: EncKrbCredPartBodyView) -> Seq<AsnValue> {
    match v.r_address {
        Some(x) => seq![Tag::<5, HostAddress>::spec_to_value(x)] + enc_krb_cred_part_body_write_6(v),
        None => enc_krb_cred_part_body_write_6(v),
    }
}

/// The children a [`EncKrbCredPartBody`] writes past its last field: none.
pub open spec fn enc_krb_cred_part_body_write_6(v: EncKrbCredPartBodyView) -> Seq<AsnValue> {
    Seq::empty()
}

/// Read the fields of a [`EncKrbCredPartBody`] from field 0 on.
pub open spec fn enc_krb_cred_part_body_read_0(cs: Seq<AsnValue>) -> Option<EncKrbCredPartBodyView> {
    if cs.len() > 0 {
        match Tag::<0, SequenceOf<KrbCredInfo>>::spec_from_value(cs[0]) {
            Some(f) => enc_krb_cred_part_body_read_1(cs.skip(1), f),
            None => None,
        }
    } else {
        None
    }
}

/// Read the fields of a [`EncKrbCredPartBody`] from field 1 on.
pub open spec fn enc_krb_cred_part_body_read_1(cs: Seq<AsnValue>, f_ticket_info: Seq<KrbCredInfoView>) -> Option<EncKrbCredPartBodyView> {
    if cs.len() > 0 && has_ctx(cs[0], 1) {
        match Tag::<1, Integer>::spec_from_value(cs[0]) {
            Some(f) => enc_krb_cred_part_body_read_2(cs.skip(1), f_ticket_info, Some(f)),
            None => None,
        }
    } else {
        enc_krb_cred_part_body_read_2(cs, f_ticket_info, None::<u32>)
    }
}

/// Read the fields of a [`EncKrbCredPartBody`] from field 2 on.
pub open spec fn enc_krb_cred_part_body_read_2(cs: Seq<AsnValue>, f_ticket_info: Seq<KrbCredInfoView>, f_nonce: Option<u32>) -> Option<EncKrbCredPartBodyView> {
    if cs.len() > 0 && has_ctx(cs[0], 2) {
        match Tag::<2, KerberosTime>::spec_from_value(cs[0]) {
            Some(f) => enc_krb_cred_part_body_read_3(cs.skip(1), f_ticket_info, f_nonce, Some(f)),
            None => None,
        }
    } else {
        enc_krb_cred_part_body_read_3(cs, f_ticket_info, f_nonce, None::<GeneralizedTime>)
    }
}

/// Read the fields of a [`EncKrbCredPartBody`] from field 3 on.
pub open spec fn enc_krb_cred_part_body_read_3(cs: Seq<AsnValue>, f_ticket_info: Seq<KrbCredInfoView>, f_nonce: Option<u32>, f_timestamp: Option<GeneralizedTime>) -> Option<EncKrbCredPartBodyView> {
    if cs.len() > 0 && has_ctx(cs[0], 3) {
        match Tag::<3, Integer>::spec_from_value(cs[0]) {
            Some(f) => enc_krb_cred_part_body_read_4(cs.skip(1), f_ticket_info, f_nonce, f_timestamp, Some(f)),
            None => None,
        }
    } else {
        enc_krb_cred_part_body_read_4(cs, f_ticket_info, f_nonce, f_timestamp, None::<u32>)
    }
}

/// Read the fields of a [`EncKrbCredPartBody`] from field 4 on.
pub open spec fn enc_krb_cred_part_body_read_4(cs: Seq<AsnValue>, f_ticket_info: Seq<KrbCredInfoView>, f_nonce: Option<u32>, f_timestamp: Option<GeneralizedTime>, f_usec: Option<u32>) -> Option<EncKrbCredPartBodyView> {
    if cs.len() > 0 && has_ctx(cs[0], 4) {
        match Tag::<4, HostAddress>::spec_from_value(cs[0]) {
            Some(f) => enc_krb_cred_part_body_read_5(cs.skip(1), f_ticket_info, f_nonce, f_timestamp, f_usec, Some(f)),
            None => None,
        }
    } else {
        enc_krb_cred_part_body_read_5(cs, f_ticket_info, f_nonce, f_timestamp, f_usec, None::<HostAddressView>)
    }
}

/// Read the fields of a [`EncKrbCredPartBody`] from field 5 on.
pub open spec fn enc_krb_cred_part_body_read_5(cs: Seq<AsnValue>, f_ticket_info: Seq<KrbCredInfoView>, f_nonce: Option<u32>, f_timestamp: Option<GeneralizedTime>, f_usec: Option<u32>, f_s_address: Option<HostAddressView>) -> Option<EncKrbCredPartBodyView> {
    if cs.len() > 0 && has_ctx(cs[0], 5) {
        match Tag::<5, HostAddress>::spec_from_value(cs[0]) {
            Some(f) => enc_krb_cred_part_body_read_6(cs.skip(1), f_ticket_info, f_nonce, f_timestamp, f_usec, f_s_address, Some(f)),
            None => None,
        }
    } else {
        enc_krb_cred_part_body_read_6(cs, f_ticket_info, f_nonce, f_timestamp, f_usec, f_s_address, None::<HostAddressView>)
    }
}

/// Past the last field of a [`EncKrbCredPartBody`]: the children must be spent.
pub open spec fn enc_krb_cred_part_body_read_6(cs: Seq<AsnValue>, f_ticket_info: Seq<KrbCredInfoView>, f_nonce: Option<u32>, f_timestamp: Option<GeneralizedTime>, f_usec: Option<u32>, f_s_address: Option<HostAddressView>, f_r_address: Option<HostAddressView>) -> Option<EncKrbCredPartBodyView> {
    if cs.len() == 0 {
        Some(EncKrbCredPartBodyView {
            ticket_info: f_ticket_info,
            nonce: f_nonce,
            timestamp: f_timestamp,
            usec: f_usec,
            s_address: f_s_address,
            r_address: f_r_address,
        })
    } else {
        None
    }
}

impl Asn1Data for EncKrbCredPartBody {
    open spec fn view_wf(v: EncKrbCredPartBodyView) -> bool {
        Tag::<0, SequenceOf<KrbCredInfo>>::view_wf(v.ticket_info)
            && (match v.nonce {
            Some(x) => Tag::<1, Integer>::view_wf(x),
            None => true,
        })
            && (match v.timestamp {
            Some(x) => Tag::<2, KerberosTime>::view_wf(x),
            None => true,
        })
            && (match v.usec {
            Some(x) => Tag::<3, Integer>::view_wf(x),
            None => true,
        })
            && (match v.s_address {
            Some(x) => Tag::<4, HostAddress>::view_wf(x),
            None => true,
        })
            && (match v.r_address {
            Some(x) => Tag::<5, HostAddress>::view_wf(x),
            None => true,
        })
    }

    open spec fn spec_to_value(v: EncKrbCredPartBodyView) -> AsnValue {
        AsnValue::Sequence(enc_krb_cred_part_body_write_0(v))
    }

    open spec fn spec_from_value(a: AsnValue) -> Option<EncKrbCredPartBodyView> {
        match a {
            AsnValue::Sequence(cs) => enc_krb_cred_part_body_read_0(cs),
            _ => None,
        }
    }

    #[verifier::rlimit(100)]
    fn to_value(&self) -> (r: Asn1Value) {
        let ghost v = self.deep_view();
        let mut children: Vec<Asn1Value> = Vec::new();
        let ghost mut gc: Seq<AsnValue> = Seq::empty();
        proof {
            assert(crate::der::view_list(children@) =~= gc);
            lemma_nil_concat(enc_krb_cred_part_body_write_0(v));
            assert(enc_krb_cred_part_body_write_0(v) == gc + enc_krb_cred_part_body_write_0(v));
        }
        let ghost ch_prev0 = children@;
        let ghost gc_prev0 = gc;
        children.push(self.ticket_info.to_value());
        proof {
            assert(children@.drop_last() =~= ch_prev0);
            gc = gc.push(Tag::<0, SequenceOf<KrbCredInfo>>::spec_to_value(self.ticket_info.deep_view()));
            assert(crate::der::view_list(children@) == gc);
            assert(enc_krb_cred_part_body_write_0(v) == seq![Tag::<0, SequenceOf<KrbCredInfo>>::spec_to_value(self.ticket_info.deep_view())] + enc_krb_cred_part_body_write_1(v));
            lemma_snoc_concat(gc_prev0, Tag::<0, SequenceOf<KrbCredInfo>>::spec_to_value(self.ticket_info.deep_view()), enc_krb_cred_part_body_write_1(v));
            assert(enc_krb_cred_part_body_write_0(v) == gc + enc_krb_cred_part_body_write_1(v));
        }
        match &self.nonce {
            Some(x) => {
                let ghost ch_prev = children@;
                let ghost gc_prev = gc;
                children.push(x.to_value());
                proof {
                    assert(children@.drop_last() =~= ch_prev);
                    gc = gc.push(Tag::<1, Integer>::spec_to_value(x.deep_view()));
                    assert(crate::der::view_list(children@) == gc);
                    assert(enc_krb_cred_part_body_write_1(v) == seq![Tag::<1, Integer>::spec_to_value(x.deep_view())] + enc_krb_cred_part_body_write_2(v));
                    lemma_snoc_concat(gc_prev, Tag::<1, Integer>::spec_to_value(x.deep_view()), enc_krb_cred_part_body_write_2(v));
                    assert(enc_krb_cred_part_body_write_0(v) == gc + enc_krb_cred_part_body_write_2(v));
                }
            },
            None => {
                proof {
                    assert(enc_krb_cred_part_body_write_1(v) == enc_krb_cred_part_body_write_2(v));
                    assert(enc_krb_cred_part_body_write_0(v) == gc + enc_krb_cred_part_body_write_2(v));
                }
            },
        }
        match &self.timestamp {
            Some(x) => {
                let ghost ch_prev = children@;
                let ghost gc_prev = gc;
                children.push(x.to_value());
                proof {
                    assert(children@.drop_last() =~= ch_prev);
                    gc = gc.push(Tag::<2, KerberosTime>::spec_to_value(x.deep_view()));
                    assert(crate::der::view_list(children@) == gc);
                    assert(enc_krb_cred_part_body_write_2(v) == seq![Tag::<2, KerberosTime>::spec_to_value(x.deep_view())] + enc_krb_cred_part_body_write_3(v));
                    lemma_snoc_concat(gc_prev, Tag::<2, KerberosTime>::spec_to_value(x.deep_view()), enc_krb_cred_part_body_write_3(v));
                    assert(enc_krb_cred_part_body_write_0(v) == gc + enc_krb_cred_part_body_write_3(v));
                }
            },
            None => {
                proof {
                    assert(enc_krb_cred_part_body_write_2(v) == enc_krb_cred_part_body_write_3(v));
                    assert(enc_krb_cred_part_body_write_0(v) == gc + enc_krb_cred_part_body_write_3(v));
                }
            },
        }
        match &self.usec {
            Some(x) => {
                let ghost ch_prev = children@;
                let ghost gc_prev = gc;
                children.push(x.to_value());
                proof {
                    assert(children@.drop_last() =~= ch_prev);
                    gc = gc.push(Tag::<3, Integer>::spec_to_value(x.deep_view()));
                    assert(crate::der::view_list(children@) == gc);
                    assert(enc_krb_cred_part_body_write_3(v) == seq![Tag::<3, Integer>::spec_to_value(x.deep_view())] + enc_krb_cred_part_body_write_4(v));
                    lemma_snoc_concat(gc_prev, Tag::<3, Integer>::spec_to_value(x.deep_view()), enc_krb_cred_part_body_write_4(v));
                    assert(enc_krb_cred_part_body_write_0(v) == gc + enc_krb_cred_part_body_write_4(v));
                }
            },
            None => {
                proof {
                    assert(enc_krb_cred_part_body_write_3(v) == enc_krb_cred_part_body_write_4(v));
                    assert(enc_krb_cred_part_body_write_0(v) == gc + enc_krb_cred_part_body_write_4(v));
                }
            },
        }
        match &self.s_address {
            Some(x) => {
                let ghost ch_prev = children@;
                let ghost gc_prev = gc;
                children.push(x.to_value());
                proof {
                    assert(children@.drop_last() =~= ch_prev);
                    gc = gc.push(Tag::<4, HostAddress>::spec_to_value(x.deep_view()));
                    assert(crate::der::view_list(children@) == gc);
                    assert(enc_krb_cred_part_body_write_4(v) == seq![Tag::<4, HostAddress>::spec_to_value(x.deep_view())] + enc_krb_cred_part_body_write_5(v));
                    lemma_snoc_concat(gc_prev, Tag::<4, HostAddress>::spec_to_value(x.deep_view()), enc_krb_cred_part_body_write_5(v));
                    assert(enc_krb_cred_part_body_write_0(v) == gc + enc_krb_cred_part_body_write_5(v));
                }
            },
            None => {
                proof {
                    assert(enc_krb_cred_part_body_write_4(v) == enc_krb_cred_part_body_write_5(v));
                    assert(enc_krb_cred_part_body_write_0(v) == gc + enc_krb_cred_part_body_write_5(v));
                }
            },
        }
        match &self.r_address {
            Some(x) => {
                let ghost ch_prev = children@;
                let ghost gc_prev = gc;
                children.push(x.to_value());
                proof {
                    assert(children@.drop_last() =~= ch_prev);
                    gc = gc.push(Tag::<5, HostAddress>::spec_to_value(x.deep_view()));
                    assert(crate::der::view_list(children@) == gc);
                    assert(enc_krb_cred_part_body_write_5(v) == seq![Tag::<5, HostAddress>::spec_to_value(x.deep_view())] + enc_krb_cred_part_body_write_6(v));
                    lemma_snoc_concat(gc_prev, Tag::<5, HostAddress>::spec_to_value(x.deep_view()), enc_krb_cred_part_body_write_6(v));
                    assert(enc_krb_cred_part_body_write_0(v) == gc + enc_krb_cred_part_body_write_6(v));
                }
            },
            None => {
                proof {
                    assert(enc_krb_cred_part_body_write_5(v) == enc_krb_cred_part_body_write_6(v));
                    assert(enc_krb_cred_part_body_write_0(v) == gc + enc_krb_cred_part_body_write_6(v));
                }
            },
        }
        proof {
            assert(enc_krb_cred_part_body_write_6(v) == Seq::<AsnValue>::empty());
            lemma_concat_nil(gc);
            assert(AsnValue::Sequence(gc) == Self::spec_to_value(v));
        }
        Asn1Value::Sequence(children)
    }

    #[verifier::rlimit(100)]
    fn from_value(a: &Asn1Value) -> (r: Result<Self, KerlabError>) {
        match a {
            Asn1Value::Sequence(cs) => {
                proof {
                    crate::der::lemma_view_list(cs@);
                }
                let ghost vl = crate::der::view_list(cs@);
                proof {
                    assert(vl.skip(0) =~= vl);
                    assert(Self::spec_from_value(a@) == enc_krb_cred_part_body_read_0(vl.skip(0)));
                }
                let n = cs.len();
                let mut i: usize = 0;
                if i >= n {
                    proof {
                        assert(vl.skip(i as int).len() == 0);
                    }
                    return Err(KerlabError::new(KerlabErrorKind::Parsing, "missing field"));
                }
                proof {
                    assert(vl.skip(i as int)[0] == vl[i as int]);
                    assert(vl[i as int] == cs@[i as int]@);
                }
                let f_ticket_info = match Tag::<0, SequenceOf<KrbCredInfo>>::from_value(&cs[i]) {
                    Ok(x) => x,
                    Err(e) => {
                        return Err(e);
                    },
                };
                proof {
                    lemma_skip_skip(vl, i as int);
                }
                i += 1;
                proof {
                    assert(Self::spec_from_value(a@) == enc_krb_cred_part_body_read_1(vl.skip(i as int), f_ticket_info.deep_view()));
                }
                let mut f_nonce: Option<Tag<1, Integer>> = None;
                if i < n && is_ctx(&cs[i], 1) {
                    proof {
                        assert(vl.skip(i as int)[0] == vl[i as int]);
                        assert(vl[i as int] == cs@[i as int]@);
                    }
                    match Tag::<1, Integer>::from_value(&cs[i]) {
                        Ok(x) => {
                            proof {
                                lemma_skip_skip(vl, i as int);
                            }
                            f_nonce = Some(x);
                            i += 1;
                        },
                        Err(e) => {
                            return Err(e);
                        },
                    }
                } else {
                    proof {
                        if i < n {
                            assert(vl.skip(i as int)[0] == vl[i as int]);
                            assert(vl[i as int] == cs@[i as int]@);
                        }
                    }
                }
                proof {
                    assert(Self::spec_from_value(a@) == enc_krb_cred_part_body_read_2(vl.skip(i as int), f_ticket_info.deep_view(), f_nonce.deep_view()));
                }
                let mut f_timestamp: Option<Tag<2, KerberosTime>> = None;
                if i < n && is_ctx(&cs[i], 2) {
                    proof {
                        assert(vl.skip(i as int)[0] == vl[i as int]);
                        assert(vl[i as int] == cs@[i as int]@);
                    }
                    match Tag::<2, KerberosTime>::from_value(&cs[i]) {
                        Ok(x) => {
                            proof {
                                lemma_skip_skip(vl, i as int);
                            }
                            f_timestamp = Some(x);
                            i += 1;
                        },
                        Err(e) => {
                            return Err(e);
                        },
                    }
                } else {
                    proof {
                        if i < n {
                            assert(vl.skip(i as int)[0] == vl[i as int]);
                            assert(vl[i as int] == cs@[i as int]@);
                        }
                    }
                }
                proof {
                    assert(Self::spec_from_value(a@) == enc_krb_cred_part_body_read_3(vl.skip(i as int), f_ticket_info.deep_view(), f_nonce.deep_view(), f_timestamp.deep_view()));
                }
                let mut f_usec: Option<Tag<3, Integer>> = None;
                if i < n && is_ctx(&cs[i], 3) {
                    proof {
                        assert(vl.skip(i as int)[0] == vl[i as int]);
                        assert(vl[i as int] == cs@[i as int]@);
                    }
                    match Tag::<3, Integer>::from_value(&cs[i]) {
                        Ok(x) => {
                            proof {
                                lemma_skip_skip(vl, i as int);
                            }
                            f_usec = Some(x);
                            i += 1;
                        },
                        Err(e) => {
                            return Err(e);
                        },
                    }
                } else {
                    proof {
                        if i < n {
                            assert(vl.skip(i as int)[0] == vl[i as int]);
                            assert(vl[i as int] == cs@[i as int]@);
                        }
                    }
                }
                proof {
                    assert(Self::spec_from_value(a@) == enc_krb_cred_part_body_read_4(vl.skip(i as int), f_ticket_info.deep_view(), f_nonce.deep_view(), f_timestamp.deep_view(), f_usec.deep_view()));
                }
                let mut f_s_address: Option<Tag<4, HostAddress>> = None;
                if i < n && is_ctx(&cs[i], 4) {
                    proof {
                        assert(vl.skip(i as int)[0] == vl[i as int]);
                        assert(vl[i as int] == cs@[i as int]@);
                    }
                    match Tag::<4, HostAddress>::from_value(&cs[i]) {
                        Ok(x) => {
                            proof {
                                lemma_skip_skip(vl, i as int);
                            }
                            f_s_address = Some(x);
                            i += 1;
                        },
                        Err(e) => {
                            return Err(e);
                        },
                    }
                } else {
                    proof {
                        if i < n {
                            assert(vl.skip(i as int)[0] == vl[i as int]);
                            assert(vl[i as int] == cs@[i as int]@);
                        }
                    }
                }
                proof {
                    assert(Self::spec_from_value(a@) == enc_krb_cred_part_body_read_5(vl.skip(i as int), f_ticket_info.deep_view(), f_nonce.deep_view(), f_timestamp.deep_view(), f_usec.deep_view(), f_s_address.deep_view()));
                }
                let mut f_r_address: Option<Tag<5, HostAddress>> = None;
                if i < n && is_ctx(&cs[i], 5) {
                    proof {
                        assert(vl.skip(i as int)[0] == vl[i as int]);
                        assert(vl[i as int] == cs@[i as int]@);
                    }
                    match Tag::<5, HostAddress>::from_value(&cs[i]) {
                        Ok(x) => {
                            proof {
                                lemma_skip_skip(vl, i as int);
                            }
                            f_r_address = Some(x);
                            i += 1;
                        },
                        Err(e) => {
                            return Err(e);
                        },
                    }
                } else {
                    proof {
                        if i < n {
                            assert(vl.skip(i as int)[0] == vl[i as int]);
                            assert(vl[i as int] == cs@[i as int]@);
                        }
                    }
                }
                proof {
                    assert(Self::spec_from_value(a@) == enc_krb_cred_part_body_read_6(vl.skip(i as int), f_ticket_info.deep_view(), f_nonce.deep_view(), f_timestamp.deep_view(), f_usec.deep_view(), f_s_address.deep_view(), f_r_address.deep_view()));
                }
                if i != n {
                    return Err(KerlabError::new(KerlabErrorKind::Parsing, "unexpected extra field"));
                }
                proof {
                    assert(vl.skip(i as int).len() == 0);
                }
                Ok(EncKrbCredPartBody {
                    ticket_info: f_ticket_info,
                    nonce: f_nonce,
                    timestamp: f_timestamp,
                    usec: f_usec,
                    s_address: f_s_address,
                    r_address: f_r_address,
                })
            },
            _ => Err(KerlabError::new(KerlabErrorKind::Parsing, "expected a sequence")),
        }
    }

    proof fn lemma_round_trip(v: EncKrbCredPartBodyView) {
        enc_krb_cred_part_body_rt_0(v);
        assert(Self::spec_from_value(Self::spec_to_value(v)) == Some(v));
    }
}

/// Reading no children past the last field yields the view back.
proof fn enc_krb_cred_part_body_rt_6(v: EncKrbCredPartBodyView)
    requires
        EncKrbCredPartBody::view_wf(v),
    ensures
        enc_krb_cred_part_body_read_6(enc_krb_cred_part_body_write_6(v), v.ticket_info, v.nonce, v.timestamp, v.usec, v.s_address, v.r_address) == Some(v),
        forall|j: int| 0 <= j < enc_krb_cred_part_body_write_6(v).len() ==> value_wf(#[trigger] enc_krb_cred_part_body_write_6(v)[j]),
{
    assert(enc_krb_cred_part_body_write_6(v).len() == 0);
    assert((EncKrbCredPartBodyView { ticket_info: v.ticket_info, nonce: v.nonce, timestamp: v.timestamp, usec: v.usec, s_address: v.s_address, r_address: v.r_address }) =~= v);
}

/// Reading the children written from field 5 on yields the view back.
proof fn enc_krb_cred_part_body_rt_5(v: EncKrbCredPartBodyView)
    requires
        EncKrbCredPartBody::view_wf(v),
    ensures
        enc_krb_cred_part_body_read_5(enc_krb_cred_part_body_write_5(v), v.ticket_info, v.nonce, v.timestamp, v.usec, v.s_address) == Some(v),
        forall|j: int| 0 <= j < enc_krb_cred_part_body_write_5(v).len() ==> value_wf(#[trigger] enc_krb_cred_part_body_write_5(v)[j]),
{
    enc_krb_cred_part_body_rt_6(v);
    match v.r_address {
        Some(x) => {
            Tag::<5, HostAddress>::lemma_round_trip(x);
            assert(enc_krb_cred_part_body_write_5(v) == seq![Tag::<5, HostAddress>::spec_to_value(x)] + enc_krb_cred_part_body_write_6(v));
            assert(enc_krb_cred_part_body_write_5(v)[0] == Tag::<5, HostAddress>::spec_to_value(x));
            assert(has_ctx(enc_krb_cred_part_body_write_5(v)[0], 5));
            lemma_cons_skip(Tag::<5, HostAddress>::spec_to_value(x), enc_krb_cred_part_body_write_6(v));
            assert(enc_krb_cred_part_body_read_5(enc_krb_cred_part_body_write_5(v), v.ticket_info, v.nonce, v.timestamp, v.usec, v.s_address) == enc_krb_cred_part_body_read_6(enc_krb_cred_part_body_write_6(v), v.ticket_info, v.nonce, v.timestamp, v.usec, v.s_address, Some(x)));
            assert forall|j: int| 0 <= j < enc_krb_cred_part_body_write_5(v).len() implies value_wf(#[trigger] enc_krb_cred_part_body_write_5(v)[j]) by {
                if j >= 1 {
                    assert(enc_krb_cred_part_body_write_5(v)[j] == enc_krb_cred_part_body_write_6(v)[j - 1]);
                }
            }
        },
        None => {
            assert(enc_krb_cred_part_body_write_5(v) == enc_krb_cred_part_body_write_6(v));
            if enc_krb_cred_part_body_write_6(v).len() > 0 {
                assert(!has_ctx(enc_krb_cred_part_body_write_6(v)[0], 5));
            }
            assert(enc_krb_cred_part_body_read_5(enc_krb_cred_part_body_write_5(v), v.ticket_info, v.nonce, v.timestamp, v.usec, v.s_address) == enc_krb_cred_part_body_read_6(enc_krb_cred_part_body_write_6(v), v.ticket_info, v.nonce, v.timestamp, v.usec, v.s_address, None::<HostAddressView>));
        },
    }
}

/// Reading the children written from field 4 on yields the view back.
proof fn enc_krb_cred_part_body_rt_4(v: EncKrbCredPartBodyView)
    requires
        EncKrbCredPartBody::view_wf(v),
    ensures
        enc_krb_cred_part_body_read_4(enc_krb_cred_part_body_write_4(v), v.ticket_info, v.nonce, v.timestamp, v.usec) == Some(v),
        forall|j: int| 0 <= j < enc_krb_cred_part_body_write_4(v).len() ==> value_wf(#[trigger] enc_krb_cred_part_body_write_4(v)[j]),
{
    enc_krb_cred_part_body_rt_5(v);
    match v.s_address {
        Some(x) => {
            Tag::<4, HostAddress>::lemma_round_trip(x);
            assert(enc_krb_cred_part_body_write_4(v) == seq![Tag::<4, HostAddress>::spec_to_value(x)] + enc_krb_cred_part_body_write_5(v));
            assert(enc_krb_cred_part_body_write_4(v)[0] == Tag::<4, HostAddress>::spec_to_value(x));
            assert(has_ctx(enc_krb_cred_part_body_write_4(v)[0], 4));
            lemma_cons_skip(Tag::<4, HostAddress>::spec_to_value(x), enc_krb_cred_part_body_write_5(v));
            assert(enc_krb_cred_part_body_read_4(enc_krb_cred_part_body_write_4(v), v.ticket_info, v.nonce, v.timestamp, v.usec) == enc_krb_cred_part_body_read_5(enc_krb_cred_part_body_write_5(v), v.ticket_info, v.nonce, v.timestamp, v.usec, Some(x)));
            assert forall|j: int| 0 <= j < enc_krb_cred_part_body_write_4(v).len() implies value_wf(#[trigger] enc_krb_cred_part_body_write_4(v)[j]) by {
                if j >= 1 {
                    assert(enc_krb_cred_part_body_write_4(v)[j] == enc_krb_cred_part_body_write_5(v)[j - 1]);
                }
            }
        },
        None => {
            assert(enc_krb_cred_part_body_write_4(v) == enc_krb_cred_part_body_write_5(v));
            if enc_krb_cred_part_body_write_5(v).len() > 0 {
                assert(!has_ctx(enc_krb_cred_part_body_write_5(v)[0], 4));
            }
            assert(enc_krb_cred_part_body_read_4(enc_krb_cred_part_body_write_4(v), v.ticket_info, v.nonce, v.timestamp, v.usec) == enc_krb_cred_part_body_read_5(enc_krb_cred_part_body_write_5(v), v.ticket_info, v.nonce, v.timestamp, v.usec, None::<HostAddressView>));
        },
    }
}

/// Reading the children written from field 3 on yields the view back.
proof fn enc_krb_cred_part_body_rt_3(v: EncKrbCredPartBodyView)
    requires
        EncKrbCredPartBody::view_wf(v),
    ensures
        enc_krb_cred_part_body_read_3(enc_krb_cred_part_body_write_3(v), v.ticket_info, v.nonce, v.timestamp) == Some(v),
        forall|j: int| 0 <= j < enc_krb_cred_part_body_write_3(v).len() ==> value_wf(#[trigger] enc_krb_cred_part_body_write_3(v)[j]),
{
    enc_krb_cred_part_body_rt_4(v);
    match v.usec {
        Some(x) => {
            Tag::<3, Integer>::lemma_round_trip(x);
            assert(enc_krb_cred_part_body_write_3(v) == seq![Tag::<3, Integer>::spec_to_value(x)] + enc_krb_cred_part_body_write_4(v));
            assert(enc_krb_cred_part_body_write_3(v)[0] == Tag::<3, Integer>::spec_to_value(x));
            assert(has_ctx(enc_krb_cred_part_body_write_3(v)[0], 3));
            lemma_cons_skip(Tag::<3, Integer>::spec_to_value(x), enc_krb_cred_part_body_write_4(v));
            assert(enc_krb_cred_part_body_read_3(enc_krb_cred_part_body_write_3(v), v.ticket_info, v.nonce, v.timestamp) == enc_krb_cred_part_body_read_4(enc_krb_cred_part_body_write_4(v), v.ticket_info, v.nonce, v.timestamp, Some(x)));
            assert forall|j: int| 0 <= j < enc_krb_cred_part_body_write_3(v).len() implies value_wf(#[trigger] enc_krb_cred_part_body_write_3(v)[j]) by {
                if j >= 1 {
                    assert(enc_krb_cred_part_body_write_3(v)[j] == enc_krb_cred_part_body_write_4(v)[j - 1]);
                }
            }
        },
        None => {
            assert(enc_krb_cred_part_body_write_3(v) == enc_krb_cred_part_body_write_4(v));
            if enc_krb_cred_part_body_write_4(v).len() > 0 {
                assert(!has_ctx(enc_krb_cred_part_body_write_4(v)[0], 3));
            }
            assert(enc_krb_cred_part_body_read_3(enc_krb_cred_part_body_write_3(v), v.ticket_info, v.nonce, v.timestamp) == enc_krb_cred_part_body_read_4(enc_krb_cred_part_body_write_4(v), v.ticket_info, v.nonce, v.timestamp, None::<u32>));
        },
    }
}

/// Reading the children written from field 2 on yields the view back.
proof fn enc_krb_cred_part_body_rt_2(v: EncKrbCredPartBodyView)
    requires
        EncKrbCredPartBody::view_wf(v),
    ensures
        enc_krb_cred_part_body_read_2(enc_krb_cred_part_body_write_2(v), v.ticket_info, v.nonce) == Some(v),
        forall|j: int| 0 <= j < enc_krb_cred_part_body_write_2(v).len() ==> value_wf(#[trigger] enc_krb_cred_part_body_write_2(v)[j]),
{
    enc_krb_cred_part_body_rt_3(v);
    match v.timestamp {
        Some(x) => {
            Tag::<2, KerberosTime>::lemma_round_trip(x);
            assert(enc_krb_cred_part_body_write_2(v) == seq![Tag::<2, KerberosTime>::spec_to_value(x)] + enc_krb_cred_part_body_write_3(v));
            assert(enc_krb_cred_part_body_write_2(v)[0] == Tag::<2, KerberosTime>::spec_to_value(x));
            assert(has_ctx(enc_krb_cred_part_body_write_2(v)[0], 2));
            lemma_cons_skip(Tag::<2, KerberosTime>::spec_to_value(x), enc_krb_cred_part_body_write_3(v));
            assert(enc_krb_cred_part_body_read_2(enc_krb_cred_part_body_write_2(v), v.ticket_info, v.nonce) == enc_krb_cred_part_body_read_3(enc_krb_cred_part_body_write_3(v), v.ticket_info, v.nonce, Some(x)));
            assert forall|j: int| 0 <= j < enc_krb_cred_part_body_write_2(v).len() implies value_wf(#[trigger] enc_krb_cred_part_body_write_2(v)[j]) by {
                if j >= 1 {
                    assert(enc_krb_cred_part_body_write_2(v)[j] == enc_krb_cred_part_body_write_3(v)[j - 1]);
                }
            }
        },
        None => {
            assert(enc_krb_cred_part_body_write_2(v) == enc_krb_cred_part_body_write_3(v));
            if enc_krb_cred_part_body_write_3(v).len() > 0 {
                assert(!has_ctx(enc_krb_cred_part_body_write_3(v)[0], 2));
            }
            assert(enc_krb_cred_part_body_read_2(enc_krb_cred_part_body_write_2(v), v.ticket_info, v.nonce) == enc_krb_cred_part_body_read_3(enc_krb_cred_part_body_write_3(v), v.ticket_info, v.nonce, None::<GeneralizedTime>));
        },
    }
}

/// Reading the children written from field 1 on yields the view back.
proof fn enc_krb_cred_part_body_rt_1(v: EncKrbCredPartBodyView)
    requires
        EncKrbCredPartBody::view_wf(v),
    ensures
        enc_krb_cred_part_body_read_1(enc_krb_cred_part_body_write_1(v), v.ticket_info) == Some(v),
        forall|j: int| 0 <= j < enc_krb_cred_part_body_write_1(v).len() ==> value_wf(#[trigger] enc_krb_cred_part_body_write_1(v)[j]),
{
    enc_krb_cred_part_body_rt_2(v);
    match v.nonce {
        Some(x) => {
            Tag::<1, Integer>::lemma_round_trip(x);
            assert(enc_krb_cred_part_body_write_1(v) == seq![Tag::<1, Integer>::spec_to_value(x)] + enc_krb_cred_part_body_write_2(v));
            assert(enc_krb_cred_part_body_write_1(v)[0] == Tag::<1, Integer>::spec_to_value(x));
            assert(has_ctx(enc_krb_cred_part_body_write_1(v)[0], 1));
            lemma_cons_skip(Tag::<1, Integer>::spec_to_value(x), enc_krb_cred_part_body_write_2(v));
            assert(enc_krb_cred_part_body_read_1(enc_krb_cred_part_body_write_1(v), v.ticket_info) == enc_krb_cred_part_body_read_2(enc_krb_cred_part_body_write_2(v), v.ticket_info, Some(x)));
            assert forall|j: int| 0 <= j < enc_krb_cred_part_body_write_1(v).len() implies value_wf(#[trigger] enc_krb_cred_part_body_write_1(v)[j]) by {
                if j >= 1 {
                    assert(enc_krb_cred_part_body_write_1(v)[j] == enc_krb_cred_part_body_write_2(v)[j - 1]);
                }
            }
        },
        None => {
            assert(enc_krb_cred_part_body_write_1(v) == enc_krb_cred_part_body_write_2(v));
            if enc_krb_cred_part_body_write_2(v).len() > 0 {
                assert(!has_ctx(enc_krb_cred_part_body_write_2(v)[0], 1));
            }
            assert(enc_krb_cred_part_body_read_1(enc_krb_cred_part_body_write_1(v), v.ticket_info) == enc_krb_cred_part_body_read_2(enc_krb_cred_part_body_write_2(v), v.ticket_info, None::<u32>));
        },
    }
}

/// Reading the children written from field 0 on yields the view back.
proof fn enc_krb_cred_part_body_rt_0(v: EncKrbCredPartBodyView)
    requires
        EncKrbCredPartBody::view_wf(v),
    ensures
        enc_krb_cred_part_body_read_0(enc_krb_cred_part_body_write_0(v)) == Some(v),
        forall|j: int| 0 <= j < enc_krb_cred_part_body_write_0(v).len() ==> value_wf(#[trigger] enc_krb_cred_part_body_write_0(v)[j]),
{
    enc_krb_cred_part_body_rt_1(v);
    Tag::<0, SequenceOf<KrbCredInfo>>::lemma_round_trip(v.ticket_info);
    assert(enc_krb_cred_part_body_write_0(v) == seq![Tag::<0, SequenceOf<KrbCredInfo>>::spec_to_value(v.ticket_info)] + enc_krb_cred_part_body_write_1(v));
    assert(enc_krb_cred_part_body_write_0(v)[0] == Tag::<0, SequenceOf<KrbCredInfo>>::spec_to_value(v.ticket_info));
    assert(has_ctx(enc_krb_cred_part_body_write_0(v)[0], 0));
    lemma_cons_skip(Tag::<0, SequenceOf<KrbCredInfo>>::spec_to_value(v.ticket_info), enc_krb_cred_part_body_write_1(v));
    assert(enc_krb_cred_part_body_read_0(enc_krb_cred_part_body_write_0(v)) == enc_krb_cred_part_body_read_1(enc_krb_cred_part_body_write_1(v), v.ticket_info));
    assert forall|j: int| 0 <= j < enc_krb_cred_part_body_write_0(v).len() implies value_wf(#[trigger] enc_krb_cred_part_body_write_0(v)[j]) by {
        if j >= 1 {
            assert(enc_krb_cred_part_body_write_0(v)[j] == enc_krb_cred_part_body_write_1(v)[j - 1]);
        }
    }
}

/// The KRB-CRED body (`pvno[0], msg-type[1], tickets[2], enc-part[3]`).
#[derive(Debug, Clone, PartialEq, Default)]
pub struct KrbCredBody {
    pub pvno: Tag<0, Integer>,
    pub msg_ticket: Tag<1, Integer>,
    pub tickets: Tag<2, SequenceOf<Ticket>>,
    pub enc_part: Tag<3, EncryptedData>,
}

/// The deep view of [`KrbCredBody`].
#[verifier::ext_equal]
pub struct KrbCredBodyView {
    pub pvno: u32,
    pub msg_ticket: u32,
    pub tickets: Seq<TicketBodyView>,
    pub enc_part: EncryptedDataView,
}

impl DeepView for KrbCredBody {
    type V = KrbCredBodyView;

    open spec fn deep_view(&self) -> KrbCredBodyView {
        KrbCredBodyView {
            pvno: self.pvno.deep_view(),
            msg_ticket: self.msg_ticket.deep_view(),
            tickets: self.tickets.deep_view(),
            enc_part: self.enc_part.deep_view(),
        }
    }
}

/// The children a [`KrbCredBody`] writes from its field 0 on.
pub open spec fn krb_cred_body_write_0(v: KrbCredBodyView) -> Seq<AsnValue> {
    seq![Tag::<0, Integer>::spec_to_value(v.pvno)] + krb_cred_body_write_1(v)
}

/// The children a [`KrbCredBody`] writes from its field 1 on.
pub open spec fn krb_cred_body_write_1(v: KrbCredBodyView) -> Seq<AsnValue> {
    seq![Tag::<1, Integer>::spec_to_value(v.msg_ticket)] + krb_cred_body_write_2(v)
}

/// The children a [`KrbCredBody`] writes from its field 2 on.
pub open spec fn krb_cred_body_write_2(v: KrbCredBodyView) -> Seq<AsnValue> {
    seq![Tag::<2, SequenceOf<Ticket>>::spec_to_value(v.tickets)] + krb_cred_body_write_3(v)
}

/// The children a [`KrbCredBody`] writes from its field 3 on.
pub open spec fn krb_cred_body_write_3(v: KrbCredBodyView) -> Seq<AsnValue> {
    seq![Tag::<3, EncryptedData>::spec_to_value(v.enc_part)] + krb_cred_body_write_4(v)
}

/// The children a [`KrbCredBody`] writes past its last field: none.
pub open spec fn krb_cred_body_write_4(v: KrbCredBodyView) -> Seq<AsnValue> {
    Seq::empty()
}

/// Read the fields of a [`KrbCredBody`] from field 0 on.
pub open spec fn krb_cred_body_read_0(cs: Seq<AsnValue>) -> Option<KrbCredBodyView> {
    if cs.len() > 0 {
        match Tag::<0, Integer>::spec_from_value(cs[0]) {
            Some(f) => krb_cred_body_read_1(cs.skip(1), f),
            None => None,
        }
    } else {
        None
    }
}

/// Read the fields of a [`KrbCredBody`] from field 1 on.
pub open spec fn krb_cred_body_read_1(cs: Seq<AsnValue>, f_pvno: u32) -> Option<KrbCredBodyView> {
    if cs.len() > 0 {
        match Tag::<1, Integer>::spec_from_value(cs[0]) {
            Some(f) => krb_cred_body_read_2(cs.skip(1), f_pvno, f),
            None => None,
        }
    } else {
        None
    }
}

/// Read the fields of a [`KrbCredBody`] from field 2 on.
pub open spec fn krb_cred_body_read_2(cs: Seq<AsnValue>, f_pvno: u32, f_msg_ticket: u32) -> Option<KrbCredBodyView> {
    if cs.len() > 0 {
        match Tag::<2, SequenceOf<Ticket>>::spec_from_value(cs[0]) {
            Some(f) => krb_cred_body_read_3(cs.skip(1), f_pvno, f_msg_ticket, f),
            None => None,
        }
    } else {
        None
    }
}

/// Read the fields of a [`KrbCredBody`] from field 3 on.
pub open spec fn krb_cred_body_read_3(cs: Seq<AsnValue>, f_pvno: u32, f_msg_ticket: u32, f_tickets: Seq<TicketBodyView>) -> Option<KrbCredBodyView> {
    if cs.len() > 0 {
        match Tag::<3, EncryptedData>::spec_from_value(cs[0]) {
            Some(f) => krb_cred_body_read_4(cs.skip(1), f_pvno, f_msg_ticket, f_tickets, f),
            None => None,
        }
    } else {
        None
    }
}

/// Past the last field of a [`KrbCredBody`]: the children must be spent.
pub open spec fn krb_cred_body_read_4(cs: Seq<AsnValue>, f_pvno: u32, f_msg_ticket: u32, f_tickets: Seq<TicketBodyView>, f_enc_part: EncryptedDataView) -> Option<KrbCredBodyView> {
    if cs.len() == 0 {
        Some(KrbCredBodyView {
            pvno: f_pvno,
            msg_ticket: f_msg_ticket,
            tickets: f_tickets,
            enc_part: f_enc_part,
        })
    } else {
        None
    }
}

impl Asn1Data for KrbCredBody {
    open spec fn view_wf(v: KrbCredBodyView) -> bool {
        Tag::<0, Integer>::view_wf(v.pvno)
            && Tag::<1, Integer>::view_wf(v.msg_ticket)
            && Tag::<2, SequenceOf<Ticket>>::view_wf(v.tickets)
            && Tag::<3, EncryptedData>::view_wf(v.enc_part)
    }

    open spec fn spec_to_value(v: KrbCredBodyView) -> AsnValue {
        AsnValue::Sequence(krb_cred_body_write_0(v))
    }

    open spec fn spec_from_value(a: AsnValue) -> Option<KrbCredBodyView> {
        match a {
            AsnValue::Sequence(cs) => krb_cred_body_read_0(cs),
            _ => None,
        }
    }

    fn to_value(&self) -> (r: Asn1Value) {
        let ghost v = self.deep_view();
        let mut children: Vec<Asn1Value> = Vec::new();
        let ghost mut gc: Seq<AsnValue> = Seq::empty();
        proof {
            assert(crate::der::view_list(children@) =~= gc);
            lemma_nil_concat(krb_cred_body_write_0(v));
            assert(krb_cred_body_write_0(v) == gc + krb_cred_body_write_0(v));
        }
        let ghost ch_prev0 = children@;
        let ghost gc_prev0 = gc;
        children.push(self.pvno.to_value());
        proof {
            assert(children@.drop_last() =~= ch_prev0);
            gc = gc.push(Tag::<0, Integer>::spec_to_value(self.pvno.deep_view()));
            assert(crate::der::view_list(children@) == gc);
            assert(krb_cred_body_write_0(v) == seq![Tag::<0, Integer>::spec_to_value(self.pvno.deep_view())] + krb_cred_body_write_1(v));
            lemma_snoc_concat(gc_prev0, Tag::<0, Integer>::spec_to_value(self.pvno.deep_view()), krb_cred_body_write_1(v));
            assert(krb_cred_body_write_0(v) == gc + krb_cred_body_write_1(v));
        }
        let ghost ch_prev1 = children@;
        let ghost gc_prev1 = gc;
        children.push(self.msg_ticket.to_value());
        proof {
            assert(children@.drop_last() =~= ch_prev1);
            gc = gc.push(Tag::<1, Integer>::spec_to_value(self.msg_ticket.deep_view()));
            assert(crate::der::view_list(children@) == gc);
            assert(krb_cred_body_write_1(v) == seq![Tag::<1, Integer>::spec_to_value(self.msg_ticket.deep_view())] + krb_cred_body_write_2(v));
            lemma_snoc_concat(gc_prev1, Tag::<1, Integer>::spec_to_value(self.msg_ticket.deep_view()), krb_cred_body_write_2(v));
            assert(krb_cred_body_write_0(v) == gc + krb_cred_body_write_2(v));
        }
        let ghost ch_prev2 = children@;
        let ghost gc_prev2 = gc;
        children.push(self.tickets.to_value());
        proof {
            assert(children@.drop_last() =~= ch_prev2);
            gc = gc.push(Tag::<2, SequenceOf<Ticket>>::spec_to_value(self.tickets.deep_view()));
            assert(crate::der::view_list(children@) == gc);
            assert(krb_cred_body_write_2(v) == seq![Tag::<2, SequenceOf<Ticket>>::spec_to_value(self.tickets.deep_view())] + krb_cred_body_write_3(v));
            lemma_snoc_concat(gc_prev2, Tag::<2, SequenceOf<Ticket>>::spec_to_value(self.tickets.deep_view()), krb_cred_body_write_3(v));
            assert(krb_cred_body_write_0(v) == gc + krb_cred_body_write_3(v));
        }
        let ghost ch_prev3 = children@;
        let ghost gc_prev3 = gc;
        children.push(self.enc_part.to_value());
        proof {
            assert(children@.drop_last() =~= ch_prev3);
            gc = gc.push(Tag::<3, EncryptedData>::spec_to_value(self.enc_part.deep_view()));
            assert(crate::der::view_list(children@) == gc);
            assert(krb_cred_body_write_3(v) == seq![Tag::<3, EncryptedData>::spec_to_value(self.enc_part.deep_view())] + krb_cred_body_write_4(v));
            lemma_snoc_concat(gc_prev3, Tag::<3, EncryptedData>::spec_to_value(self.enc_part.deep_view()), krb_cred_body_write_4(v));
            assert(krb_cred_body_write_0(v) == gc + krb_cred_body_write_4(v));
        }
        proof {
            assert(krb_cred_body_write_4(v) == Seq::<AsnValue>::empty());
            lemma_concat_nil(gc);
            assert(AsnValue::Sequence(gc) == Self::spec_to_value(v));
        }
        Asn1Value::Sequence(children)
    }

    fn from_value(a: &Asn1Value) -> (r: Result<Self, KerlabError>) {
        match a {
            Asn1Value::Sequence(cs) => {
                proof {
                    crate::der::lemma_view_list(cs@);
                }
                let ghost vl = crate::der::view_list(cs@);
                proof {
                    assert(vl.skip(0) =~= vl);
                    assert(Self::spec_from_value(a@) == krb_cred_body_read_0(vl.skip(0)));
                }
                let n = cs.len();
                let mut i: usize = 0;
                if i >= n {
                    proof {
                        assert(vl.skip(i as int).len() == 0);
                    }
                    return Err(KerlabError::new(KerlabErrorKind::Parsing, "missing field"));
                }
                proof {
                    assert(vl.skip(i as int)[0] == vl[i as int]);
                    assert(vl[i as int] == cs@[i as int]@);
                }
                let f_pvno = match Tag::<0, Integer>::from_value(&cs[i]) {
                    Ok(x) => x,
                    Err(e) => {
                        return Err(e);
                    },
                };
                proof {
                    lemma_skip_skip(vl, i as int);
                }
                i += 1;
                proof {
                    assert(Self::spec_from_value(a@) == krb_cred_body_read_1(vl.skip(i as int), f_pvno.deep_view()));
                }
                if i >= n {
                    proof {
                        assert(vl.skip(i as int).len() == 0);
                    }
                    return Err(KerlabError::new(KerlabErrorKind::Parsing, "missing field"));
                }
                proof {
                    assert(vl.skip(i as int)[0] == vl[i as int]);
                    assert(vl[i as int] == cs@[i as int]@);
                }
                let f_msg_ticket = match Tag::<1, Integer>::from_value(&cs[i]) {
                    Ok(x) => x,
                    Err(e) => {
                        return Err(e);
                    },
                };
                proof {
                    lemma_skip_skip(vl, i as int);
                }
                i += 1;
                proof {
                    assert(Self::spec_from_value(a@) == krb_cred_body_read_2(vl.skip(i as int), f_pvno.deep_view(), f_msg_ticket.deep_view()));
                }
                if i >= n {
                    proof {
                        assert(vl.skip(i as int).len() == 0);
                    }
                    return Err(KerlabError::new(KerlabErrorKind::Parsing, "missing field"));
                }
                proof {
                    assert(vl.skip(i as int)[0] == vl[i as int]);
                    assert(vl[i as int] == cs@[i as int]@);
                }
                let f_tickets = match Tag::<2, SequenceOf<Ticket>>::from_value(&cs[i]) {
                    Ok(x) => x,
                    Err(e) => {
                        return Err(e);
                    },
                };
                proof {
                    lemma_skip_skip(vl, i as int);
                }
                i += 1;
                proof {
                    assert(Self::spec_from_value(a@) == krb_cred_body_read_3(vl.skip(i as int), f_pvno.deep_view(), f_msg_ticket.deep_view(), f_tickets.deep_view()));
                }
                if i >= n {
                    proof {
                        assert(vl.skip(i as int).len() == 0);
                    }
                    return Err(KerlabError::new(KerlabErrorKind::Parsing, "missing field"));
                }
                proof {
                    assert(vl.skip(i as int)[0] == vl[i as int]);
                    assert(vl[i as int] == cs@[i as int]@);
                }
                let f_enc_part = match Tag::<3, EncryptedData>::from_value(&cs[i]) {
                    Ok(x) => x,
                    Err(e) => {
                        return Err(e);
                    },
                };
                proof {
                    lemma_skip_skip(vl, i as int);
                }
                i += 1;
                proof {
                    assert(Self::spec_from_value(a@) == krb_cred_body_read_4(vl.skip(i as int), f_pvno.deep_view(), f_msg_ticket.deep_view(), f_tickets.deep_view(), f_enc_part.deep_view()));
                }
                if i != n {
                    return Err(KerlabError::new(KerlabErrorKind::Parsing, "unexpected extra field"));
                }
                proof {
                    assert(vl.skip(i as int).len() == 0);
                }
                Ok(KrbCredBody {
                    pvno: f_pvno,
                    msg_ticket: f_msg_ticket,
                    tickets: f_tickets,
                    enc_part: f_enc_part,
                })
            },
            _ => Err(KerlabError::new(KerlabErrorKind::Parsing, "expected a sequence")),
        }
    }

    proof fn lemma_round_trip(v: KrbCredBodyView) {
        krb_cred_body_rt_0(v);
        assert(Self::spec_from_value(Self::spec_to_value(v)) == Some(v));
    }
}

/// Reading no children past the last field yields the view back.
proof fn krb_cred_body_rt_4(v: KrbCredBodyView)
    requires
        KrbCredBody::view_wf(v),
    ensures
        krb_cred_body_read_4(krb_cred_body_write_4(v), v.pvno, v.msg_ticket, v.tickets, v.enc_part) == Some(v),
        forall|j: int| 0 <= j < krb_cred_body_write_4(v).len() ==> value_wf(#[trigger] krb_cred_body_write_4(v)[j]),
{
    assert(krb_cred_body_write_4(v).len() == 0);
    assert((KrbCredBodyView { pvno: v.pvno, msg_ticket: v.msg_ticket, tickets: v.tickets, enc_part: v.enc_part }) =~= v);
}

/// Reading the children written from field 3 on yields the view back.
proof fn krb_cred_body_rt_3(v: KrbCredBodyView)
    requires
        KrbCredBody::view_wf(v),
    ensures
        krb_cred_body_read_3(krb_cred_body_write_3(v), v.pvno, v.msg_ticket, v.tickets) == Some(v),
        forall|j: int| 0 <= j < krb_cred_body_write_3(v).len() ==> value_wf(#[trigger] krb_cred_body_write_3(v)[j]),
{
    krb_cred_body_rt_4(v);
    Tag::<3, EncryptedData>::lemma_round_trip(v.enc_part);
    assert(krb_cred_body_write_3(v) == seq![Tag::<3, EncryptedData>::spec_to_value(v.enc_part)] + krb_cred_body_write_4(v));
    assert(krb_cred_body_write_3(v)[0] == Tag::<3, EncryptedData>::spec_to_value(v.enc_part));
    assert(has_ctx(krb_cred_body_write_3(v)[0], 3));
    lemma_cons_skip(Tag::<3, EncryptedData>::spec_to_value(v.enc_part), krb_cred_body_write_4(v));
    assert(krb_cred_body_read_3(krb_cred_body_write_3(v), v.pvno, v.msg_ticket, v.tickets) == krb_cred_body_read_4(krb_cred_body_write_4(v), v.pvno, v.msg_ticket, v.tickets, v.enc_part));
    assert forall|j: int| 0 <= j < krb_cred_body_write_3(v).len() implies value_wf(#[trigger] krb_cred_body_write_3(v)[j]) by {
        if j >= 1 {
            assert(krb_cred_body_write_3(v)[j] == krb_cred_body_write_4(v)[j - 1]);
        }
    }
}

/// Reading the children written from field 2 on yields the view back.
proof fn krb_cred_body_rt_2(v: KrbCredBodyView)
    requires
        KrbCredBody::view_wf(v),
    ensures
        krb_cred_body_read_2(krb_cred_body_write_2(v), v.pvno, v.msg_ticket) == Some(v),
        forall|j: int| 0 <= j < krb_cred_body_write_2(v).len() ==> value_wf(#[trigger] krb_cred_body_write_2(v)[j]),
{
    krb_cred_body_rt_3(v);
    Tag::<2, SequenceOf<Ticket>>::lemma_round_trip(v.tickets);
    assert(krb_cred_body_write_2(v) == seq![Tag::<2, SequenceOf<Ticket>>::spec_to_value(v.tickets)] + krb_cred_body_write_3(v));
    assert(krb_cred_body_write_2(v)[0] == Tag::<2, SequenceOf<Ticket>>::spec_to_value(v.tickets));
    assert(has_ctx(krb_cred_body_write_2(v)[0], 2));
    lemma_cons_skip(Tag::<2, SequenceOf<Ticket>>::spec_to_value(v.tickets), krb_cred_body_write_3(v));
    assert(krb_cred_body_read_2(krb_cred_body_write_2(v), v.pvno, v.msg_ticket) == krb_cred_body_read_3(krb_cred_body_write_3(v), v.pvno, v.msg_ticket, v.tickets));
    assert forall|j: int| 0 <= j < krb_cred_body_write_2(v).len() implies value_wf(#[trigger] krb_cred_body_write_2(v)[j]) by {
        if j >= 1 {
            assert(krb_cred_body_write_2(v)[j] == krb_cred_body_write_3(v)[j - 1]);
        }
    }
}

/// Reading the children written from field 1 on yields the view back.
proof fn krb_cred_body_rt_1(v: KrbCredBodyView)
    requires
        KrbCredBody::view_wf(v),
    ensures
        krb_cred_body_read_1(krb_cred_body_write_1(v), v.pvno) == Some(v),
        forall|j: int| 0 <= j < krb_cred_body_write_1(v).len() ==> value_wf(#[trigger] krb_cred_body_write_1(v)[j]),
{
    krb_cred_body_rt_2(v);
    Tag::<1, Integer>::lemma_round_trip(v.msg_ticket);
    assert(krb_cred_body_write_1(v) == seq![Tag::<1, Integer>::spec_to_value(v.msg_ticket)] + krb_cred_body_write_2(v));
    assert(krb_cred_body_write_1(v)[0] == Tag::<1, Integer>::spec_to_value(v.msg_ticket));
    assert(has_ctx(krb_cred_body_write_1(v)[0], 1));
    lemma_cons_skip(Tag::<1, Integer>::spec_to_value(v.msg_ticket), krb_cred_body_write_2(v));
    assert(krb_cred_body_read_1(krb_cred_body_write_1(v), v.pvno) == krb_cred_body_read_2(krb_cred_body_write_2(v), v.pvno, v.msg_ticket));
    assert forall|j: int| 0 <= j < krb_cred_body_write_1(v).len() implies value_wf(#[trigger] krb_cred_body_write_1(v)[j]) by {
        if j >= 1 {
            assert(krb_cred_body_write_1(v)[j] == krb_cred_body_write_2(v)[j - 1]);
        }
    }
}

/// Reading the children written from field 0 on yields the view back.
proof fn krb_cred_body_rt_0(v: KrbCredBodyView)
    requires
        KrbCredBody::view_wf(v),
    ensures
        krb_cred_body_read_0(krb_cred_body_write_0(v)) == Some(v),
        forall|j: int| 0 <= j < krb_cred_body_write_0(v).len() ==> value_wf(#[trigger] krb_cred_body_write_0(v)[j]),
{
    krb_cred_body_rt_1(v);
    Tag::<0, Integer>::lemma_round_trip(v.pvno);
    assert(krb_cred_body_write_0(v) == seq![Tag::<0, Integer>::spec_to_value(v.pvno)] + krb_cred_body_write_1(v));
    assert(krb_cred_body_write_0(v)[0] == Tag::<0, Integer>::spec_to_value(v.pvno));
    assert(has_ctx(krb_cred_body_write_0(v)[0], 0));
    lemma_cons_skip(Tag::<0, Integer>::spec_to_value(v.pvno), krb_cred_body_write_1(v));
    assert(krb_cred_body_read_0(krb_cred_body_write_0(v)) == krb_cred_body_read_1(krb_cred_body_write_1(v), v.pvno));
    assert forall|j: int| 0 <= j < krb_cred_body_write_0(v).len() implies value_wf(#[trigger] krb_cred_body_write_0(v)[j]) by {
        if j >= 1 {
            assert(krb_cred_body_write_0(v)[j] == krb_cred_body_write_1(v)[j - 1]);
        }
    }
}

/// The enc-part of a KRB-CRED: `[APPLICATION 29]` around its body.
pub type EncKrbCredPart = Application<29, EncKrbCredPartBody>;

/// A KRB-CRED: `[APPLICATION 22]` around its body.
pub type KrbCred = Application<22, KrbCredBody>;

/// The ticket info a KRB-CRED stores for a decoded KDC reply: the session
/// key and validity of the ticket, named for the client.
pub open spec fn cred_info_of(name: PrincipalNameView, dec: EncKDCRepPartView) -> KrbCredInfoView {
    KrbCredInfoView {
        key: dec.key,
        prealm: Some(dec.srealm),
        pname: Some(name),
        flags: None,
        authtime: Some(dec.authtime),
        starttime: dec.starttime,
        endtime: Some(dec.endtime),
        renew_till: dec.renew_till,
        srealm: Some(dec.srealm),
        sname: Some(dec.sname),
        caddr: None,
    }
}

impl KrbCredInfo {
    /// Pick the session data of a decoded KDC reply for storage.
    pub fn new(name: PrincipalName, dec: EncKDCRepPart) -> (r: Self)
        ensures
            r.deep_view() == cred_info_of(name.deep_view(), dec.deep_view()),
    {
        let prealm_copy = GeneralString {
            bytes: vstd::slice::slice_to_vec(dec.srealm.inner.as_bytes()),
        };
        let r = KrbCredInfo {
            key: Tag::new(dec.key.inner),
            prealm: Some(Tag::new(prealm_copy)),
            pname: Some(Tag::new(name)),
            flags: None,
            authtime: Some(Tag::new(dec.authtime.inner)),
            starttime: match dec.starttime {
                Some(e) => Some(Tag::new(e.inner)),
                None => None,
            },
            endtime: Some(Tag::new(dec.endtime.inner)),
            renew_till: match dec.renew_till {
                Some(e) => Some(Tag::new(e.inner)),
                None => None,
            },
            srealm: Some(Tag::new(dec.srealm.inner)),
            sname: Some(Tag::new(dec.sname.inner)),
            caddr: None,
        };
        proof {
            assert(r.deep_view() =~= cred_info_of(name.deep_view(), dec.deep_view()));
        }
        r
    }
}

impl KrbCred {
    /// Package a captured ticket and its decoded session data as a
    /// KRB-CRED whose enc-part is stored cleartext under null encryption,
    /// the on-disk credential cache of this toolkit.
    pub fn new(name: PrincipalName, ticket: Ticket, enc_part: EncKDCRepPart) -> (r: KerlabResult<
        Self,
    >)
        requires
            PrincipalName::view_wf(name.deep_view()),
            <EncKDCRepPart as Asn1Data>::view_wf(enc_part.deep_view()),
        ensures
            match r {
                Ok(c) => {
                    &&& c.deep_view().pvno == 5
                    &&& c.deep_view().msg_ticket == MessageType::KrbCred.spec_value()
                    &&& c.deep_view().tickets == seq![ticket.deep_view()]
                    &&& c.deep_view().enc_part.etype == 0
                    &&& c.deep_view().enc_part.kvno is None
                    &&& c.deep_view().enc_part.cipher == spec_to_der::<EncKrbCredPart>(
                        EncKrbCredPartBodyView {
                            ticket_info: seq![
                                cred_info_of(name.deep_view(), enc_part.deep_view()),
                            ],
                            nonce: None,
                            timestamp: None,
                            usec: None,
                            s_address: None,
                            r_address: None,
                        },
                    )
                },
                Err(_) => false,
            },
    {
        let key = EncryptionKey::new_no_encryption();
        let info = KrbCredInfo::new(name, enc_part);
        let mut infos: Vec<KrbCredInfo> = Vec::new();
        let ghost info_view = info.deep_view();
        infos.push(info);
        proof {
            assert(infos.deep_view() =~= seq![info_view]);
        }
        let part: EncKrbCredPart = Application {
            inner: EncKrbCredPartBody {
                ticket_info: Tag::new(infos),
                nonce: None,
                timestamp: None,
                usec: None,
                s_address: None,
                r_address: None,
            },
        };
        let sealed = match key.encrypt(KeyUsage::KeyUsageAsRepEncPart, &part) {
            Ok(x) => x,
            Err(e) => {
                return Err(e);
            },
        };
        let mut tickets: Vec<Ticket> = Vec::new();
        let ghost ticket_view = ticket.deep_view();
        tickets.push(ticket);
        proof {
            assert(tickets.deep_view() =~= seq![ticket_view]);
        }
        Ok(
            Application {
                inner: KrbCredBody {
                    pvno: Tag::new(5),
                    msg_ticket: Tag::new(MessageType::KrbCred.value()),
                    tickets: Tag::new(tickets),
                    enc_part: Tag::new(sealed),
                },
            },
        )
    }
}

} // verus!