//! The basic Kerberos wire types of RFC 1510 section 5: principal names,
//! realms, host addresses, last-request entries and authorization data.

use vstd::prelude::*;

verus! {

use crate::asn1::{
    Asn1Data, lemma_concat_nil, lemma_cons_skip, lemma_nil_concat, lemma_skip_skip, lemma_snoc_concat, BitString, GeneralString, Integer, OctetString, SequenceOf, Tag, has_ctx, is_ctx,
};
use crate::der::{AsnValue, Asn1Value, GeneralizedTime, value_wf};
use crate::error::{KerlabError, KerlabErrorKind};

/// A principal: its name-type and its labels (`name-type[0] INTEGER, name-string[1] SEQUENCE OF GeneralString`).
#[derive(Debug, Clone, PartialEq, Default)]
pub struct PrincipalName {
    pub name_type: Tag<0, Integer>,
    pub name_string: Tag<1, SequenceOf<GeneralString>>,
}

/// The deep view of [`PrincipalName`].
#[verifier::ext_equal]
pub struct PrincipalNameView {
    pub name_type: u32,
    pub name_string: Seq<Seq<u8>>,
}

impl DeepView for PrincipalName {
    type V = PrincipalNameView;

    open spec fn deep_view(&self) -> PrincipalNameView {
        PrincipalNameView {
            name_type: self.name_type.deep_view(),
            name_string: self.name_string.deep_view(),
        }
    }
}

/// The children a [`PrincipalName`] writes from its field 0 on.
pub open spec fn principal_name_write_0(v: PrincipalNameView) -> Seq<AsnValue> {
    seq![Tag::<0, Integer>::spec_to_value(v.name_type)] + principal_name_write_1(v)
}

/// The children a [`PrincipalName`] writes from its field 1 on.
pub open spec fn principal_name_write_1(v: PrincipalNameView) -> Seq<AsnValue> {
    seq![Tag::<1, SequenceOf<GeneralString>>::spec_to_value(v.name_string)] + principal_name_write_2(v)
}

/// The children a [`PrincipalName`] writes past its last field: none.
pub open spec fn principal_name_write_2(v: PrincipalNameView) -> Seq<AsnValue> {
    Seq::empty()
}

/// Read the fields of a [`PrincipalName`] from field 0 on.
pub open spec fn principal_name_read_0(cs: Seq<AsnValue>) -> Option<PrincipalNameView> {
    if cs.len() > 0 {
        match Tag::<0, Integer>::spec_from_value(cs[0]) {
            Some(f) => principal_name_read_1(cs.skip(1), f),
            None => None,
        }
    } else {
        None
    }
}

/// Read the fields of a [`PrincipalName`] from field 1 on.
pub open spec fn principal_name_read_1(cs: Seq<AsnValue>, f_name_type: u32) -> Option<PrincipalNameView> {
    if cs.len() > 0 {
        match Tag::<1, SequenceOf<GeneralString>>::spec_from_value(cs[0]) {
            Some(f) => principal_name_read_2(cs.skip(1), f_name_type, f),
            None => None,
        }
    } else {
        None
    }
}

/// Past the last field of a [`PrincipalName`]: the children must be spent.
pub open spec fn principal_name_read_2(cs: Seq<AsnValue>, f_name_type: u32, f_name_string: Seq<Seq<u8>>) -> Option<PrincipalNameView> {
    if cs.len() == 0 {
        Some(PrincipalNameView {
            name_type: f_name_type,
            name_string: f_name_string,
        })
    } else {
        None
    }
}

impl Asn1Data for PrincipalName {
    open spec fn view_wf(v: PrincipalNameView) -> bool {
        Tag::<0, Integer>::view_wf(v.name_type)
            && Tag::<1, SequenceOf<GeneralString>>::view_wf(v.name_string)
    }

    open spec fn spec_to_value(v: PrincipalNameView) -> AsnValue {
        AsnValue::Sequence(principal_name_write_0(v))
    }

    open spec fn spec_from_value(a: AsnValue) -> Option<PrincipalNameView> {
        match a {
            AsnValue::Sequence(cs) => principal_name_read_0(cs),
            _ => None,
        }
    }

    fn to_value(&self) -> (r: Asn1Value) {
        let ghost v = self.deep_view();
        let mut children: Vec<Asn1Value> = Vec::new();
        let ghost mut gc: Seq<AsnValue> = Seq::empty();
        proof {
            assert(crate::der::view_list(children@) =~= gc);
            lemma_nil_concat(principal_name_write_0(v));
            assert(principal_name_write_0(v) == gc + principal_name_write_0(v));
        }
        let ghost ch_prev0 = children@;
        let ghost gc_prev0 = gc;
        children.push(self.name_type.to_value());
        proof {
            assert(children@.drop_last() =~= ch_prev0);
            gc = gc.push(Tag::<0, Integer>::spec_to_value(self.name_type.deep_view()));
            assert(crate::der::view_list(children@) == gc);
            assert(principal_name_write_0(v) == seq![Tag::<0, Integer>::spec_to_value(self.name_type.deep_view())] + principal_name_write_1(v));
            lemma_snoc_concat(gc_prev0, Tag::<0, Integer>::spec_to_value(self.name_type.deep_view()), principal_name_write_1(v));
            assert(principal_name_write_0(v) == gc + principal_name_write_1(v));
        }
        let ghost ch_prev1 = children@;
        let ghost gc_prev1 = gc;
        children.push(self.name_string.to_value());
        proof {
            assert(children@.drop_last() =~= ch_prev1);
            gc = gc.push(Tag::<1, SequenceOf<GeneralString>>::spec_to_value(self.name_string.deep_view()));
            assert(crate::der::view_list(children@) == gc);
            assert(principal_name_write_1(v) == seq![Tag::<1, SequenceOf<GeneralString>>::spec_to_value(self.name_string.deep_view())] + principal_name_write_2(v));
            lemma_snoc_concat(gc_prev1, Tag::<1, SequenceOf<GeneralString>>::spec_to_value(self.name_string.deep_view()), principal_name_write_2(v));
            assert(principal_name_write_0(v) == gc + principal_name_write_2(v));
        }
        proof {
            assert(principal_name_write_2(v) == Seq::<AsnValue>::empty());
            lemma_concat_nil(gc);
            assert(AsnValue::Sequence(gc) == Self::spec_to_value(v));
        }
        Asn1Value::Sequence(children)
    }

    fn from_value(a: &Asn1Value) -> (r: Result<Self, KerlabError>) {
        match a {
            Asn1Value::Sequence(cs) => {
                proof {
                    crate::der::lemma_view_list(cs@);
                }
                let ghost vl = crate::der::view_list(cs@);
                proof {
                    assert(vl.skip(0) =~= vl);
                    assert(Self::spec_from_value(a@) == principal_name_read_0(vl.skip(0)));
                }
                let n = cs.len();
                let mut i: usize = 0;
                if i >= n {
                    proof {
                        assert(vl.skip(i as int).len() == 0);
                    }
                    return Err(KerlabError::new(KerlabErrorKind::Parsing, "missing field"));
                }
                proof {
                    assert(vl.skip(i as int)[0] == vl[i as int]);
                    assert(vl[i as int] == cs@[i as int]@);
                }
                let f_name_type = match Tag::<0, Integer>::from_value(&cs[i]) {
                    Ok(x) => x,
                    Err(e) => {
                        return Err(e);
                    },
                };
                proof {
                    lemma_skip_skip(vl, i as int);
                }
                i += 1;
                proof {
                    assert(Self::spec_from_value(a@) == principal_name_read_1(vl.skip(i as int), f_name_type.deep_view()));
                }
                if i >= n {
                    proof {
                        assert(vl.skip(i as int).len() == 0);
                    }
                    return Err(KerlabError::new(KerlabErrorKind::Parsing, "missing field"));
                }
                proof {
                    assert(vl.skip(i as int)[0] == vl[i as int]);
                    assert(vl[i as int] == cs@[i as int]@);
                }
                let f_name_string = match Tag::<1, SequenceOf<GeneralString>>::from_value(&cs[i]) {
                    Ok(x) => x,
                    Err(e) => {
                        return Err(e);
                    },
                };
                proof {
                    lemma_skip_skip(vl, i as int);
                }
                i += 1;
                proof {
                    assert(Self::spec_from_value(a@) == principal_name_read_2(vl.skip(i as int), f_name_type.deep_view(), f_name_string.deep_view()));
                }
                if i != n {
                    return Err(KerlabError::new(KerlabErrorKind::Parsing, "unexpected extra field"));
                }
                proof {
                    assert(vl.skip(i as int).len() == 0);
                }
                Ok(PrincipalName {
                    name_type: f_name_type,
                    name_string: f_name_string,
                })
            },
            _ => Err(KerlabError::new(KerlabErrorKind::Parsing, "expected a sequence")),
        }
    }

    proof fn lemma_round_trip(v: PrincipalNameView) {
        principal_name_rt_0(v);
        assert(Self::spec_from_value(Self::spec_to_value(v)) == Some(v));
    }
}

/// Reading no children past the last field yields the view back.
proof fn principal_name_rt_2(v: PrincipalNameView)
    requires
        PrincipalName::view_wf(v),
    ensures
        principal_name_read_2(principal_name_write_2(v), v.name_type, v.name_string) == Some(v),
        forall|j: int| 0 <= j < principal_name_write_2(v).len() ==> value_wf(#[trigger] principal_name_write_2(v)[j]),
{
    assert(principal_name_write_2(v).len() == 0);
    assert((PrincipalNameView { name_type: v.name_type, name_string: v.name_string }) =~= v);
}

/// Reading the children written from field 1 on yields the view back.
proof fn principal_name_rt_1(v: PrincipalNameView)
    requires
        PrincipalName::view_wf(v),
    ensures
        principal_name_read_1(principal_name_write_1(v), v.name_type) == Some(v),
        forall|j: int| 0 <= j < principal_name_write_1(v).len() ==> value_wf(#[trigger] principal_name_write_1(v)[j]),
{
    principal_name_rt_2(v);
    Tag::<1, SequenceOf<GeneralString>>::lemma_round_trip(v.name_string);
    assert(principal_name_write_1(v) == seq![Tag::<1, SequenceOf<GeneralString>>::spec_to_value(v.name_string)] + principal_name_write_2(v));
    assert(principal_name_write_1(v)[0] == Tag::<1, SequenceOf<GeneralString>>::spec_to_value(v.name_string));
    assert(has_ctx(principal_name_write_1(v)[0], 1));
    lemma_cons_skip(Tag::<1, SequenceOf<GeneralString>>::spec_to_value(v.name_string), principal_name_write_2(v));
    assert(principal_name_read_1(principal_name_write_1(v), v.name_type) == principal_name_read_2(principal_name_write_2(v), v.name_type, v.name_string));
    assert forall|j: int| 0 <= j < principal_name_write_1(v).len() implies value_wf(#[trigger] principal_name_write_1(v)[j]) by {
        if j >= 1 {
            assert(principal_name_write_1(v)[j] == principal_name_write_2(v)[j - 1]);
        }
    }
}

/// Reading the children written from field 0 on yields the view back.
proof fn principal_name_rt_0(v: PrincipalNameView)
    requires
        PrincipalName::view_wf(v),
    ensures
        principal_name_read_0(principal_name_write_0(v)) == Some(v),
        forall|j: int| 0 <= j < principal_name_write_0(v).len() ==> value_wf(#[trigger] principal_name_write_0(v)[j]),
{
    principal_name_rt_1(v);
    Tag::<0, Integer>::lemma_round_trip(v.name_type);
    assert(principal_name_write_0(v) == seq![Tag::<0, Integer>::spec_to_value(v.name_type)] + principal_name_write_1(v));
    assert(principal_name_write_0(v)[0] == Tag::<0, Integer>::spec_to_value(v.name_type));
    assert(has_ctx(principal_name_write_0(v)[0], 0));
    lemma_cons_skip(Tag::<0, Integer>::spec_to_value(v.name_type), principal_name_write_1(v));
    assert(principal_name_read_0(principal_name_write_0(v)) == principal_name_read_1(principal_name_write_1(v), v.name_type));
    assert forall|j: int| 0 <= j < principal_name_write_0(v).len() implies value_wf(#[trigger] principal_name_write_0(v)[j]) by {
        if j >= 1 {
            assert(principal_name_write_0(v)[j] == principal_name_write_1(v)[j - 1]);
        }
    }
}

/// A host address (`addr-type[0] INTEGER, address[1] OCTET STRING`).
#[derive(Debug, Clone, PartialEq, Default)]
pub struct HostAddress {
    pub addr_type: Tag<0, Integer>,
    pub address: Tag<1, OctetString>,
}

/// The deep view of [`HostAddress`].
#[verifier::ext_equal]
pub struct HostAddressView {
    pub addr_type: u32,
    pub address: Seq<u8>,
}

impl DeepView for HostAddress {
    type V = HostAddressView;

    open spec fn deep_view(&self) -> HostAddressView {
        HostAddressView {
            addr_type: self.addr_type.deep_view(),
            address: self.address.deep_view(),
        }
    }
}

/// The children a [`HostAddress`] writes from its field 0 on.
pub open spec fn host_address_write_0(v: HostAddressView) -> Seq<AsnValue> {
    seq![Tag::<0, Integer>::spec_to_value(v.addr_type)] + host_address_write_1(v)
}

/// The children a [`HostAddress`] writes from its field 1 on.
pub open spec fn host_address_write_1(v: HostAddressView) -> Seq<AsnValue> {
    seq![Tag::<1, OctetString>::spec_to_value(v.address)] + host_address_write_2(v)
}

/// The children a [`HostAddress`] writes past its last field: none.
pub open spec fn host_address_write_2(v: HostAddressView) -> Seq<AsnValue> {
    Seq::empty()
}

/// Read the fields of a [`HostAddress`] from field 0 on.
pub open spec fn host_address_read_0(cs: Seq<AsnValue>) -> Option<HostAddressView> {
    if cs.len() > 0 {
        match Tag::<0, Integer>::spec_from_value(cs[0]) {
            Some(f) => host_address_read_1(cs.skip(1), f),
            None => None,
        }
    } else {
        None
    }
}

/// Read the fields of a [`HostAddress`] from field 1 on.
pub open spec fn host_address_read_1(cs: Seq<AsnValue>, f_addr_type: u32) -> Option<HostAddressView> {
    if cs.len() > 0 {
        match Tag::<1, OctetString>::spec_from_value(cs[0]) {
            Some(f) => host_address_read_2(cs.skip(1), f_addr_type, f),
            None => None,
        }
    } else {
        None
    }
}

/// Past the last field of a [`HostAddress`]: the children must be spent.
pub open spec fn host_address_read_2(cs: Seq<AsnValue>, f_addr_type: u32, f_address: Seq<u8>) -> Option<HostAddressView> {
    if cs.len() == 0 {
        Some(HostAddressView {
            addr_type: f_addr_type,
            address: f_address,
        })
    } else {
        None
    }
}

impl Asn1Data for HostAddress {
    open spec fn view_wf(v: HostAddressView) -> bool {
        Tag::<0, Integer>::view_wf(v.addr_type)
            && Tag::<1, OctetString>::view_wf(v.address)
    }

    open spec fn spec_to_value(v: HostAddressView) -> AsnValue {
        AsnValue::Sequence(host_address_write_0(v))
    }

    open spec fn spec_from_value(a: AsnValue) -> Option<HostAddressView> {
        match a {
            AsnValue::Sequence(cs) => host_address_read_0(cs),
            _ => None,
        }
    }

    fn to_value(&self) -> (r: Asn1Value) {
        let ghost v = self.deep_view();
        let mut children: Vec<Asn1Value> = Vec::new();
        let ghost mut gc: Seq<AsnValue> = Seq::empty();
        proof {
            assert(crate::der::view_list(children@) =~= gc);
            lemma_nil_concat(host_address_write_0(v));
            assert(host_address_write_0(v) == gc + host_address_write_0(v));
        }
        let ghost ch_prev0 = children@;
        let ghost gc_prev0 = gc;
        children.push(self.addr_type.to_value());
        proof {
            assert(children@.drop_last() =~= ch_prev0);
            gc = gc.push(Tag::<0, Integer>::spec_to_value(self.addr_type.deep_view()));
            assert(crate::der::view_list(children@) == gc);
            assert(host_address_write_0(v) == seq![Tag::<0, Integer>::spec_to_value(self.addr_type.deep_view())] + host_address_write_1(v));
            lemma_snoc_concat(gc_prev0, Tag::<0, Integer>::spec_to_value(self.addr_type.deep_view()), host_address_write_1(v));
            assert(host_address_write_0(v) == gc + host_address_write_1(v));
        }
        let ghost ch_prev1 = children@;
        let ghost gc_prev1 = gc;
        children.push(self.address.to_value());
        proof {
            assert(children@.drop_last() =~= ch_prev1);
            gc = gc.push(Tag::<1, OctetString>::spec_to_value(self.address.deep_view()));
            assert(crate::der::view_list(children@) == gc);
            assert(host_address_write_1(v) == seq![Tag::<1, OctetString>::spec_to_value(self.address.deep_view())] + host_address_write_2(v));
            lemma_snoc_concat(gc_prev1, Tag::<1, OctetString>::spec_to_value(self.address.deep_view()), host_address_write_2(v));
            assert(host_address_write_0(v) == gc + host_address_write_2(v));
        }
        proof {
            assert(host_address_write_2(v) == Seq::<AsnValue>::empty());
            lemma_concat_nil(gc);
            assert(AsnValue::Sequence(gc) == Self::spec_to_value(v));
        }
        Asn1Value::Sequence(children)
    }

    fn from_value(a: &Asn1Value) -> (r: Result<Self, KerlabError>) {
        match a {
            Asn1Value::Sequence(cs) => {
                proof {
                    crate::der::lemma_view_list(cs@);
                }
                let ghost vl = crate::der::view_list(cs@);
                proof {
                    assert(vl.skip(0) =~= vl);
                    assert(Self::spec_from_value(a@) == host_address_read_0(vl.skip(0)));
                }
                let n = cs.len();
                let mut i: usize = 0;
                if i >= n {
                    proof {
                        assert(vl.skip(i as int).len() == 0);
                    }
                    return Err(KerlabError::new(KerlabErrorKind::Parsing, "missing field"));
                }
                proof {
                    assert(vl.skip(i as int)[0] == vl[i as int]);
                    assert(vl[i as int] == cs@[i as int]@);
                }
                let f_addr_type = match Tag::<0, Integer>::from_value(&cs[i]) {
                    Ok(x) => x,
                    Err(e) => {
                        return Err(e);
                    },
                };
                proof {
                    lemma_skip_skip(vl, i as int);
                }
                i += 1;
                proof {
                    assert(Self::spec_from_value(a@) == host_address_read_1(vl.skip(i as int), f_addr_type.deep_view()));
                }
                if i >= n {
                    proof {
                        assert(vl.skip(i as int).len() == 0);
                    }
                    return Err(KerlabError::new(KerlabErrorKind::Parsing, "missing field"));
                }
                proof {
                    assert(vl.skip(i as int)[0] == vl[i as int]);
                    assert(vl[i as int] == cs@[i as int]@);
                }
                let f_address = match Tag::<1, OctetString>::from_value(&cs[i]) {
                    Ok(x) => x,
                    Err(e) => {
                        return Err(e);
                    },
                };
                proof {
                    lemma_skip_skip(vl, i as int);
                }
                i += 1;
                proof {
                    assert(Self::spec_from_value(a@) == host_address_read_2(vl.skip(i as int), f_addr_type.deep_view(), f_address.deep_view()));
                }
                if i != n {
                    return Err(KerlabError::new(KerlabErrorKind::Parsing, "unexpected extra field"));
                }
                proof {
                    assert(vl.skip(i as int).len() == 0);
                }
                Ok(HostAddress {
                    addr_type: f_addr_type,
                    address: f_address,
                })
            },
            _ => Err(KerlabError::new(KerlabErrorKind::Parsing, "expected a sequence")),
        }
    }

    proof fn lemma_round_trip(v: HostAddressView) {
        host_address_rt_0(v);
        assert(Self::spec_from_value(Self::spec_to_value(v)) == Some(v));
    }
}

/// Reading no children past the last field yields the view back.
proof fn host_address_rt_2(v: HostAddressView)
    requires
        HostAddress::view_wf(v),
    ensures
        host_address_read_2(host_address_write_2(v), v.addr_type, v.address) == Some(v),
        forall|j: int| 0 <= j < host_address_write_2(v).len() ==> value_wf(#[trigger] host_address_write_2(v)[j]),
{
    assert(host_address_write_2(v).len() == 0);
    assert((HostAddressView { addr_type: v.addr_type, address: v.address }) =~= v);
}

/// Reading the children written from field 1 on yields the view back.
proof fn host_address_rt_1(v: HostAddressView)
    requires
        HostAddress::view_wf(v),
    ensures
        host_address_read_1(host_address_write_1(v), v.addr_type) == Some(v),
        forall|j: int| 0 <= j < host_address_write_1(v).len() ==> value_wf(#[trigger] host_address_write_1(v)[j]),
{
    host_address_rt_2(v);
    Tag::<1, OctetString>::lemma_round_trip(v.address);
    assert(host_address_write_1(v) == seq![Tag::<1, OctetString>::spec_to_value(v.address)] + host_address_write_2(v));
    assert(host_address_write_1(v)[0] == Tag::<1, OctetString>::spec_to_value(v.address));
    assert(has_ctx(host_address_write_1(v)[0], 1));
    lemma_cons_skip(Tag::<1, OctetString>::spec_to_value(v.address), host_address_write_2(v));
    assert(host_address_read_1(host_address_write_1(v), v.addr_type) == host_address_read_2(host_address_write_2(v), v.addr_type, v.address));
    assert forall|j: int| 0 <= j < host_address_write_1(v).len() implies value_wf(#[trigger] host_address_write_1(v)[j]) by {
        if j >= 1 {
            assert(host_address_write_1(v)[j] == host_address_write_2(v)[j - 1]);
        }
    }
}

/// Reading the children written from field 0 on yields the view back.
proof fn host_address_rt_0(v: HostAddressView)
    requires
        HostAddress::view_wf(v),
    ensures
        host_address_read_0(host_address_write_0(v)) == Some(v),
        forall|j: int| 0 <= j < host_address_write_0(v).len() ==> value_wf(#[trigger] host_address_write_0(v)[j]),
{
    host_address_rt_1(v);
    Tag::<0, Integer>::lemma_round_trip(v.addr_type);
    assert(host_address_write_0(v) == seq![Tag::<0, Integer>::spec_to_value(v.addr_type)] + host_address_write_1(v));
    assert(host_address_write_0(v)[0] == Tag::<0, Integer>::spec_to_value(v.addr_type));
    assert(has_ctx(host_address_write_0(v)[0], 0));
    lemma_cons_skip(Tag::<0, Integer>::spec_to_value(v.addr_type), host_address_write_1(v));
    assert(host_address_read_0(host_address_write_0(v)) == host_address_read_1(host_address_write_1(v), v.addr_type));
    assert forall|j: int| 0 <= j < host_address_write_0(v).len() implies value_wf(#[trigger] host_address_write_0(v)[j]) by {
        if j >= 1 {
            assert(host_address_write_0(v)[j] == host_address_write_1(v)[j - 1]);
        }
    }
}

/// One last-request entry (`lr-type[0] INTEGER, lr-value[1] KerberosTime`).
#[derive(Debug, Clone, PartialEq, Default)]
pub struct LastReqBody {
    pub lr_type: Tag<0, Integer>,
    pub lr_value: Tag<1, KerberosTime>,
}

/// The deep view of [`LastReqBody`].
#[verifier::ext_equal]
pub struct LastReqBodyView {
    pub lr_type: u32,
    pub lr_value: GeneralizedTime,
}

impl DeepView for LastReqBody {
    type V = LastReqBodyView;

    open spec fn deep_view(&self) -> LastReqBodyView {
        LastReqBodyView {
            lr_type: self.lr_type.deep_view(),
            lr_value: self.lr_value.deep_view(),
        }
    }
}

/// The children a [`LastReqBody`] writes from its field 0 on.
pub open spec fn last_req_body_write_0(v: LastReqBodyView) -> Seq<AsnValue> {
    seq![Tag::<0, Integer>::spec_to_value(v.lr_type)] + last_req_body_write_1(v)
}

/// The children a [`LastReqBody`] writes from its field 1 on.
pub open spec fn last_req_body_write_1(v: LastReqBodyView) -> Seq<AsnValue> {
    seq![Tag::<1, KerberosTime>::spec_to_value(v.lr_value)] + last_req_body_write_2(v)
}

/// The children a [`LastReqBody`] writes past its last field: none.
pub open spec fn last_req_body_write_2(v: LastReqBodyView) -> Seq<AsnValue> {
    Seq::empty()
}

/// Read the fields of a [`LastReqBody`] from field 0 on.
pub open spec fn last_req_body_read_0(cs: Seq<AsnValue>) -> Option<LastReqBodyView> {
    if cs.len() > 0 {
        match Tag::<0, Integer>::spec_from_value(cs[0]) {
            Some(f) => last_req_body_read_1(cs.skip(1), f),
            None => None,
        }
    } else {
        None
    }
}

/// Read the fields of a [`LastReqBody`] from field 1 on.
pub open spec fn last_req_body_read_1(cs: Seq<AsnValue>, f_lr_type: u32) -> Option<LastReqBodyView> {
    if cs.len() > 0 {
        match Tag::<1, KerberosTime>::spec_from_value(cs[0]) {
            Some(f) => last_req_body_read_2(cs.skip(1), f_lr_type, f),
            None => None,
        }
    } else {
        None
    }
}

/// Past the last field of a [`LastReqBody`]: the children must be spent.
pub open spec fn last_req_body_read_2(cs: Seq<AsnValue>, f_lr_type: u32, f_lr_value: GeneralizedTime) -> Option<LastReqBodyView> {
    if cs.len() == 0 {
        Some(LastReqBodyView {
            lr_type: f_lr_type,
            lr_value: f_lr_value,
        })
    } else {
        None
    }
}

impl Asn1Data for LastReqBody {
    open spec fn view_wf(v: LastReqBodyView) -> bool {
        Tag::<0, Integer>::view_wf(v.lr_type)
            && Tag::<1, KerberosTime>::view_wf(v.lr_value)
    }

    open spec fn spec_to_value(v: LastReqBodyView) -> AsnValue {
        AsnValue::Sequence(last_req_body_write_0(v))
    }

    open spec fn spec_from_value(a: AsnValue) -> Option<LastReqBodyView> {
        match a {
            AsnValue::Sequence(cs) => last_req_body_read_0(cs),
            _ => None,
        }
    }

    fn to_value(&self) -> (r: Asn1Value) {
        let ghost v = self.deep_view();
        let mut children: Vec<Asn1Value> = Vec::new();
        let ghost mut gc: Seq<AsnValue> = Seq::empty();
        proof {
            assert(crate::der::view_list(children@) =~= gc);
            lemma_nil_concat(last_req_body_write_0(v));
            assert(last_req_body_write_0(v) == gc + last_req_body_write_0(v));
        }
        let ghost ch_prev0 = children@;
        let ghost gc_prev0 = gc;
        children.push(self.lr_type.to_value());
        proof {
            assert(children@.drop_last() =~= ch_prev0);
            gc = gc.push(Tag::<0, Integer>::spec_to_value(self.lr_type.deep_view()));
            assert(crate::der::view_list(children@) == gc);
            assert(last_req_body_write_0(v) == seq![Tag::<0, Integer>::spec_to_value(self.lr_type.deep_view())] + last_req_body_write_1(v));
            lemma_snoc_concat(gc_prev0, Tag::<0, Integer>::spec_to_value(self.lr_type.deep_view()), last_req_body_write_1(v));
            assert(last_req_body_write_0(v) == gc + last_req_body_write_1(v));
        }
        let ghost ch_prev1 = children@;
        let ghost gc_prev1 = gc;
        children.push(self.lr_value.to_value());
        proof {
            assert(children@.drop_last() =~= ch_prev1);
            gc = gc.push(Tag::<1, KerberosTime>::spec_to_value(self.lr_value.deep_view()));
            assert(crate::der::view_list(children@) == gc);
            assert(last_req_body_write_1(v) == seq![Tag::<1, KerberosTime>::spec_to_value(self.lr_value.deep_view())] + last_req_body_write_2(v));
            lemma_snoc_concat(gc_prev1, Tag::<1, KerberosTime>::spec_to_value(self.lr_value.deep_view()), last_req_body_write_2(v));
            assert(last_req_body_write_0(v) == gc + last_req_body_write_2(v));
        }
        proof {
            assert(last_req_body_write_2(v) == Seq::<AsnValue>::empty());
            lemma_concat_nil(gc);
            assert(AsnValue::Sequence(gc) == Self::spec_to_value(v));
        }
        Asn1Value::Sequence(children)
    }

    fn from_value(a: &Asn1Value) -> (r: Result<Self, KerlabError>) {
        match a {
            Asn1Value::Sequence(cs) => {
                proof {
                    crate::der::lemma_view_list(cs@);
                }
                let ghost vl = crate::der::view_list(cs@);
                proof {
                    assert(vl.skip(0) =~= vl);
                    assert(Self::spec_from_value(a@) == last_req_body_read_0(vl.skip(0)));
                }
                let n = cs.len();
                let mut i: usize = 0;
                if i >= n {
                    proof {
                        assert(vl.skip(i as int).len() == 0);
                    }
                    return Err(KerlabError::new(KerlabErrorKind::Parsing, "missing field"));
                }
                proof {
                    assert(vl.skip(i as int)[0] == vl[i as int]);
                    assert(vl[i as int] == cs@[i as int]@);
                }
                let f_lr_type = match Tag::<0, Integer>::from_value(&cs[i]) {
                    Ok(x) => x,
                    Err(e) => {
                        return Err(e);
                    },
                };
                proof {
                    lemma_skip_skip(vl, i as int);
                }
                i += 1;
                proof {
                    assert(Self::spec_from_value(a@) == last_req_body_read_1(vl.skip(i as int), f_lr_type.deep_view()));
                }
                if i >= n {
                    proof {
                        assert(vl.skip(i as int).len() == 0);
                    }
                    return Err(KerlabError::new(KerlabErrorKind::Parsing, "missing field"));
                }
                proof {
                    assert(vl.skip(i as int)[0] == vl[i as int]);
                    assert(vl[i as int] == cs@[i as int]@);
                }
                let f_lr_value = match Tag::<1, KerberosTime>::from_value(&cs[i]) {
                    Ok(x) => x,
                    Err(e) => {
                        return Err(e);
                    },
                };
                proof {
                    lemma_skip_skip(vl, i as int);
                }
                i += 1;
                proof {
                    assert(Self::spec_from_value(a@) == last_req_body_read_2(vl.skip(i as int), f_lr_type.deep_view(), f_lr_value.deep_view()));
                }
                if i != n {
                    return Err(KerlabError::new(KerlabErrorKind::Parsing, "unexpected extra field"));
                }
                proof {
                    assert(vl.skip(i as int).len() == 0);
                }
                Ok(LastReqBody {
                    lr_type: f_lr_type,
                    lr_value: f_lr_value,
                })
            },
            _ => Err(KerlabError::new(KerlabErrorKind::Parsing, "expected a sequence")),
        }
    }

    proof fn lemma_round_trip(v: LastReqBodyView) {
        last_req_body_rt_0(v);
        assert(Self::spec_from_value(Self::spec_to_value(v)) == Some(v));
    }
}

/// Reading no children past the last field yields the view back.
proof fn last_req_body_rt_2(v: LastReqBodyView)
    requires
        LastReqBody::view_wf(v),
    ensures
        last_req_body_read_2(last_req_body_write_2(v), v.lr_type, v.lr_value) == Some(v),
        forall|j: int| 0 <= j < last_req_body_write_2(v).len() ==> value_wf(#[trigger] last_req_body_write_2(v)[j]),
{
    assert(last_req_body_write_2(v).len() == 0);
    assert((LastReqBodyView { lr_type: v.lr_type, lr_value: v.lr_value }) =~= v);
}

/// Reading the children written from field 1 on yields the view back.
proof fn last_req_body_rt_1(v: LastReqBodyView)
    requires
        LastReqBody::view_wf(v),
    ensures
        last_req_body_read_1(last_req_body_write_1(v), v.lr_type) == Some(v),
        forall|j: int| 0 <= j < last_req_body_write_1(v).len() ==> value_wf(#[trigger] last_req_body_write_1(v)[j]),
{
    last_req_body_rt_2(v);
    Tag::<1, KerberosTime>::lemma_round_trip(v.lr_value);
    assert(last_req_body_write_1(v) == seq![Tag::<1, KerberosTime>::spec_to_value(v.lr_value)] + last_req_body_write_2(v));
    assert(last_req_body_write_1(v)[0] == Tag::<1, KerberosTime>::spec_to_value(v.lr_value));
    assert(has_ctx(last_req_body_write_1(v)[0], 1));
    lemma_cons_skip(Tag::<1, KerberosTime>::spec_to_value(v.lr_value), last_req_body_write_2(v));
    assert(last_req_body_read_1(last_req_body_write_1(v), v.lr_type) == last_req_body_read_2(last_req_body_write_2(v), v.lr_type, v.lr_value));
    assert forall|j: int| 0 <= j < last_req_body_write_1(v).len() implies value_wf(#[trigger] last_req_body_write_1(v)[j]) by {
        if j >= 1 {
            assert(last_req_body_write_1(v)[j] == last_req_body_write_2(v)[j - 1]);
        }
    }
}

/// Reading the children written from field 0 on yields the view back.
proof fn last_req_body_rt_0(v: LastReqBodyView)
    requires
        LastReqBody::view_wf(v),
    ensures
        last_req_body_read_0(last_req_body_write_0(v)) == Some(v),
        forall|j: int| 0 <= j < last_req_body_write_0(v).len() ==> value_wf(#[trigger] last_req_body_write_0(v)[j]),
{
    last_req_body_rt_1(v);
    Tag::<0, Integer>::lemma_round_trip(v.lr_type);
    assert(last_req_body_write_0(v) == seq![Tag::<0, Integer>::spec_to_value(v.lr_type)] + last_req_body_write_1(v));
    assert(last_req_body_write_0(v)[0] == Tag::<0, Integer>::spec_to_value(v.lr_type));
    assert(has_ctx(last_req_body_write_0(v)[0], 0));
    lemma_cons_skip(Tag::<0, Integer>::spec_to_value(v.lr_type), last_req_body_write_1(v));
    assert(last_req_body_read_0(last_req_body_write_0(v)) == last_req_body_read_1(last_req_body_write_1(v), v.lr_type));
    assert forall|j: int| 0 <= j < last_req_body_write_0(v).len() implies value_wf(#[trigger] last_req_body_write_0(v)[j]) by {
        if j >= 1 {
            assert(last_req_body_write_0(v)[j] == last_req_body_write_1(v)[j - 1]);
        }
    }
}

/// One authorization-data element (`ad-type[0] INTEGER, ad-data[1] OCTET STRING`).
#[derive(Debug, Clone, PartialEq, Default)]
pub struct AuthorizationDataElement {
    pub ad_type: Tag<0, Integer>,
    pub ad_data: Tag<1, OctetString>,
}

/// The deep view of [`AuthorizationDataElement`].
#[verifier::ext_equal]
pub struct AuthorizationDataElementView {
    pub ad_type: u32,
    pub ad_data: Seq<u8>,
}

impl DeepView for AuthorizationDataElement {
    type V = AuthorizationDataElementView;

    open spec fn deep_view(&self) -> AuthorizationDataElementView {
        AuthorizationDataElementView {
            ad_type: self.ad_type.deep_view(),
            ad_data: self.ad_data.deep_view(),
        }
    }
}

/// The children a [`AuthorizationDataElement`] writes from its field 0 on.
pub open spec fn authorization_data_element_write_0(v: AuthorizationDataElementView) -> Seq<AsnValue> {
    seq![Tag::<0, Integer>::spec_to_value(v.ad_type)] + authorization_data_element_write_1(v)
}

/// The children a [`AuthorizationDataElement`] writes from its field 1 on.
pub open spec fn authorization_data_element_write_1(v: AuthorizationDataElementView) -> Seq<AsnValue> {
    seq![Tag::<1, OctetString>::spec_to_value(v.ad_data)] + authorization_data_element_write_2(v)
}

/// The children a [`AuthorizationDataElement`] writes past its last field: none.
pub open spec fn authorization_data_element_write_2(v: AuthorizationDataElementView) -> Seq<AsnValue> {
    Seq::empty()
}

/// Read the fields of a [`AuthorizationDataElement`] from field 0 on.
pub open spec fn authorization_data_element_read_0(cs: Seq<AsnValue>) -> Option<AuthorizationDataElementView> {
    if cs.len() > 0 {
        match Tag::<0, Integer>::spec_from_value(cs[0]) {
            Some(f) => authorization_data_element_read_1(cs.skip(1), f),
            None => None,
        }
    } else {
        None
    }
}

/// Read the fields of a [`AuthorizationDataElement`] from field 1 on.
pub open spec fn authorization_data_element_read_1(cs: Seq<AsnValue>, f_ad_type: u32) -> Option<AuthorizationDataElementView> {
    if cs.len() > 0 {
        match Tag::<1, OctetString>::spec_from_value(cs[0]) {
            Some(f) => authorization_data_element_read_2(cs.skip(1), f_ad_type, f),
            None => None,
        }
    } else {
        None
    }
}

/// Past the last field of a [`AuthorizationDataElement`]: the children must be spent.
pub open spec fn authorization_data_element_read_2(cs: Seq<AsnValue>, f_ad_type: u32, f_ad_data: Seq<u8>) -> Option<AuthorizationDataElementView> {
    if cs.len() == 0 {
        Some(AuthorizationDataElementView {
            ad_type: f_ad_type,
            ad_data: f_ad_data,
        })
    } else {
        None
    }
}

impl Asn1Data for AuthorizationDataElement {
    open spec fn view_wf(v: AuthorizationDataElementView) -> bool {
        Tag::<0, Integer>::view_wf(v.ad_type)
            && Tag::<1, OctetString>::view_wf(v.ad_data)
    }

    open spec fn spec_to_value(v: AuthorizationDataElementView) -> AsnValue {
        AsnValue::Sequence(authorization_data_element_write_0(v))
    }

    open spec fn spec_from_value(a: AsnValue) -> Option<AuthorizationDataElementView> {
        match a {
            AsnValue::Sequence(cs) => authorization_data_element_read_0(cs),
            _ => None,
        }
    }

    fn to_value(&self) -> (r: Asn1Value) {
        let ghost v = self.deep_view();
        let mut children: Vec<Asn1Value> = Vec::new();
        let ghost mut gc: Seq<AsnValue> = Seq::empty();
        proof {
            assert(crate::der::view_list(children@) =~= gc);
            lemma_nil_concat(authorization_data_element_write_0(v));
            assert(authorization_data_element_write_0(v) == gc + authorization_data_element_write_0(v));
        }
        let ghost ch_prev0 = children@;
        let ghost gc_prev0 = gc;
        children.push(self.ad_type.to_value());
        proof {
            assert(children@.drop_last() =~= ch_prev0);
            gc = gc.push(Tag::<0, Integer>::spec_to_value(self.ad_type.deep_view()));
            assert(crate::der::view_list(children@) == gc);
            assert(authorization_data_element_write_0(v) == seq![Tag::<0, Integer>::spec_to_value(self.ad_type.deep_view())] + authorization_data_element_write_1(v));
            lemma_snoc_concat(gc_prev0, Tag::<0, Integer>::spec_to_value(self.ad_type.deep_view()), authorization_data_element_write_1(v));
            assert(authorization_data_element_write_0(v) == gc + authorization_data_element_write_1(v));
        }
        let ghost ch_prev1 = children@;
        let ghost gc_prev1 = gc;
        children.push(self.ad_data.to_value());
        proof {
            assert(children@.drop_last() =~= ch_prev1);
            gc = gc.push(Tag::<1, OctetString>::spec_to_value(self.ad_data.deep_view()));
            assert(crate::der::view_list(children@) == gc);
            assert(authorization_data_element_write_1(v) == seq![Tag::<1, OctetString>::spec_to_value(self.ad_data.deep_view())] + authorization_data_element_write_2(v));
            lemma_snoc_concat(gc_prev1, Tag::<1, OctetString>::spec_to_value(self.ad_data.deep_view()), authorization_data_element_write_2(v));
            assert(authorization_data_element_write_0(v) == gc + authorization_data_element_write_2(v));
        }
        proof {
            assert(authorization_data_element_write_2(v) == Seq::<AsnValue>::empty());
            lemma_concat_nil(gc);
            assert(AsnValue::Sequence(gc) == Self::spec_to_value(v));
        }
        Asn1Value::Sequence(children)
    }

    fn from_value(a: &Asn1Value) -> (r: Result<Self, KerlabError>) {
        match a {
            Asn1Value::Sequence(cs) => {
                proof {
                    crate::der::lemma_view_list(cs@);
                }
                let ghost vl = crate::der::view_list(cs@);
                proof {
                    assert(vl.skip(0) =~= vl);
                    assert(Self::spec_from_value(a@) == authorization_data_element_read_0(vl.skip(0)));
                }
                let n = cs.len();
                let mut i: usize = 0;
                if i >= n {
                    proof {
                        assert(vl.skip(i as int).len() == 0);
                    }
                    return Err(KerlabError::new(KerlabErrorKind::Parsing, "missing field"));
                }
                proof {
                    assert(vl.skip(i as int)[0] == vl[i as int]);
                    assert(vl[i as int] == cs@[i as int]@);
                }
                let f_ad_type = match Tag::<0, Integer>::from_value(&cs[i]) {
                    Ok(x) => x,
                    Err(e) => {
                        return Err(e);
                    },
                };
                proof {
                    lemma_skip_skip(vl, i as int);
                }
                i += 1;
                proof {
                    assert(Self::spec_from_value(a@) == authorization_data_element_read_1(vl.skip(i as int), f_ad_type.deep_view()));
                }
                if i >= n {
                    proof {
                        assert(vl.skip(i as int).len() == 0);
                    }
                    return Err(KerlabError::new(KerlabErrorKind::Parsing, "missing field"));
                }
                proof {
                    assert(vl.skip(i as int)[0] == vl[i as int]);
                    assert(vl[i as int] == cs@[i as int]@);
                }
                let f_ad_data = match Tag::<1, OctetString>::from_value(&cs[i]) {
                    Ok(x) => x,
                    Err(e) => {
                        return Err(e);
                    },
                };
                proof {
                    lemma_skip_skip(vl, i as int);
                }
                i += 1;
                proof {
                    assert(Self::spec_from_value(a@) == authorization_data_element_read_2(vl.skip(i as int), f_ad_type.deep_view(), f_ad_data.deep_view()));
                }
                if i != n {
                    return Err(KerlabError::new(KerlabErrorKind::Parsing, "unexpected extra field"));
                }
                proof {
                    assert(vl.skip(i as int).len() == 0);
                }
                Ok(AuthorizationDataElement {
                    ad_type: f_ad_type,
                    ad_data: f_ad_data,
                })
            },
            _ => Err(KerlabError::new(KerlabErrorKind::Parsing, "expected a sequence")),
        }
    }

    proof fn lemma_round_trip(v: AuthorizationDataElementView) {
        authorization_data_element_rt_0(v);
        assert(Self::spec_from_value(Self::spec_to_value(v)) == Some(v));
    }
}

/// Reading no children past the last field yields the view back.
proof fn authorization_data_element_rt_2(v: AuthorizationDataElementView)
    requires
        AuthorizationDataElement::view_wf(v),
    ensures
        authorization_data_element_read_2(authorization_data_element_write_2(v), v.ad_type, v.ad_data) == Some(v),
        forall|j: int| 0 <= j < authorization_data_element_write_2(v).len() ==> value_wf(#[trigger] authorization_data_element_write_2(v)[j]),
{
    assert(authorization_data_element_write_2(v).len() == 0);
    assert((AuthorizationDataElementView { ad_type: v.ad_type, ad_data: v.ad_data }) =~= v);
}

/// Reading the children written from field 1 on yields the view back.
proof fn authorization_data_element_rt_1(v: AuthorizationDataElementView)
    requires
        AuthorizationDataElement::view_wf(v),
    ensures
        authorization_data_element_read_1(authorization_data_element_write_1(v), v.ad_type) == Some(v),
        forall|j: int| 0 <= j < authorization_data_element_write_1(v).len() ==> value_wf(#[trigger] authorization_data_element_write_1(v)[j]),
{
    authorization_data_element_rt_2(v);
    Tag::<1, OctetString>::lemma_round_trip(v.ad_data);
    assert(authorization_data_element_write_1(v) == seq![Tag::<1, OctetString>::spec_to_value(v.ad_data)] + authorization_data_element_write_2(v));
    assert(authorization_data_element_write_1(v)[0] == Tag::<1, OctetString>::spec_to_value(v.ad_data));
    assert(has_ctx(authorization_data_element_write_1(v)[0], 1));
    lemma_cons_skip(Tag::<1, OctetString>::spec_to_value(v.ad_data), authorization_data_element_write_2(v));
    assert(authorization_data_element_read_1(authorization_data_element_write_1(v), v.ad_type) == authorization_data_element_read_2(authorization_data_element_write_2(v), v.ad_type, v.ad_data));
    assert forall|j: int| 0 <= j < authorization_data_element_write_1(v).len() implies value_wf(#[trigger] authorization_data_element_write_1(v)[j]) by {
        if j >= 1 {
            assert(authorization_data_element_write_1(v)[j] == authorization_data_element_write_2(v)[j - 1]);
        }
    }
}

/// Reading the children written from field 0 on yields the view back.
proof fn authorization_data_element_rt_0(v: AuthorizationDataElementView)
    requires
        AuthorizationDataElement::view_wf(v),
    ensures
        authorization_data_element_read_0(authorization_data_element_write_0(v)) == Some(v),
        forall|j: int| 0 <= j < authorization_data_element_write_0(v).len() ==> value_wf(#[trigger] authorization_data_element_write_0(v)[j]),
{
    authorization_data_element_rt_1(v);
    Tag::<0, Integer>::lemma_round_trip(v.ad_type);
    assert(authorization_data_element_write_0(v) == seq![Tag::<0, Integer>::spec_to_value(v.ad_type)] + authorization_data_element_write_1(v));
    assert(authorization_data_element_write_0(v)[0] == Tag::<0, Integer>::spec_to_value(v.ad_type));
    assert(has_ctx(authorization_data_element_write_0(v)[0], 0));
    lemma_cons_skip(Tag::<0, Integer>::spec_to_value(v.ad_type), authorization_data_element_write_1(v));
    assert(authorization_data_element_read_0(authorization_data_element_write_0(v)) == authorization_data_element_read_1(authorization_data_element_write_1(v), v.ad_type));
    assert forall|j: int| 0 <= j < authorization_data_element_write_0(v).len() implies value_wf(#[trigger] authorization_data_element_write_0(v)[j]) by {
        if j >= 1 {
            assert(authorization_data_element_write_0(v)[j] == authorization_data_element_write_1(v)[j - 1]);
        }
    }
}

/// The realm (Active Directory domain) of a principal.
pub type Realm = GeneralString;

/// A UTC instant rendered on the wire as `YYYYMMDDHHMMSSZ`.
pub type KerberosTime = GeneralizedTime;

/// The KDC option flags of a request, packed as a bit string.
pub type KDCOptions = BitString;

/// The flags of a ticket, packed as a bit string.
pub type TicketFlags = BitString;

/// The addresses a ticket is valid from.
pub type HostAddresses = SequenceOf<HostAddress>;

/// When the client last requested each service.
pub type LastReq = SequenceOf<LastReqBody>;

/// The authorization data of a ticket.
pub type AuthorizationData = SequenceOf<AuthorizationDataElement>;

/// The msg-type INTEGER of each Kerberos message class.
#[derive(Clone, Copy, Debug, PartialEq, Eq, Structural)]
pub enum MessageType {
    KrbAsReq,
    KrbAsRep,
    KrbTgsReq,
    KrbTgsRep,
    KrbApReq,
    KrbApRep,
    KrbReserved1,
    KrbReserved17,
    KrbSafe,
    KrbPriv,
    KrbCred,
    KrbError,
}

impl MessageType {
    /// The integer this message class is identified by on the wire.
    pub open spec fn spec_value(&self) -> u32 {
        match self {
            MessageType::KrbAsReq => 10,
            MessageType::KrbAsRep => 11,
            MessageType::KrbTgsReq => 12,
            MessageType::KrbTgsRep => 13,
            MessageType::KrbApReq => 14,
            MessageType::KrbApRep => 15,
            MessageType::KrbReserved1 => 16,
            MessageType::KrbReserved17 => 17,
            MessageType::KrbSafe => 20,
            MessageType::KrbPriv => 21,
            MessageType::KrbCred => 22,
            MessageType::KrbError => 30,
        }
    }

    /// The integer this message class is identified by on the wire.
    pub fn value(&self) -> (r: u32)
        ensures
            r == self.spec_value(),
    {
        match self {
            MessageType::KrbAsReq => 10,
            MessageType::KrbAsRep => 11,
            MessageType::KrbTgsReq => 12,
            MessageType::KrbTgsRep => 13,
            MessageType::KrbApReq => 14,
            MessageType::KrbApRep => 15,
            MessageType::KrbReserved1 => 16,
            MessageType::KrbReserved17 => 17,
            MessageType::KrbSafe => 20,
            MessageType::KrbPriv => 21,
            MessageType::KrbCred => 22,
            MessageType::KrbError => 30,
        }
    }
}

/// The name-type INTEGER of a principal name.
#[derive(Clone, Copy, Debug, PartialEq, Eq, Structural)]
pub enum PrincipalNameType {
    NtUnknown,
    NtPrincipal,
    NtSrvInst,
    NtSrvHst,
    NtSrvXhst,
    NtUid,
    NtX500Principal,
    NtSmtpName,
    NtEnterprise,
}

impl PrincipalNameType {
    /// The integer this name type is identified by on the wire.
    pub open spec fn spec_value(&self) -> u32 {
        match self {
            PrincipalNameType::NtUnknown => 0,
            PrincipalNameType::NtPrincipal => 1,
            PrincipalNameType::NtSrvInst => 2,
            PrincipalNameType::NtSrvHst => 3,
            PrincipalNameType::NtSrvXhst => 4,
            PrincipalNameType::NtUid => 5,
            PrincipalNameType::NtX500Principal => 6,
            PrincipalNameType::NtSmtpName => 7,
            PrincipalNameType::NtEnterprise => 10,
        }
    }

    /// The integer this name type is identified by on the wire.
    pub fn value(&self) -> (r: u32)
        ensures
            r == self.spec_value(),
    {
        match self {
            PrincipalNameType::NtUnknown => 0,
            PrincipalNameType::NtPrincipal => 1,
            PrincipalNameType::NtSrvInst => 2,
            PrincipalNameType::NtSrvHst => 3,
            PrincipalNameType::NtSrvXhst => 4,
            PrincipalNameType::NtUid => 5,
            PrincipalNameType::NtX500Principal => 6,
            PrincipalNameType::NtSmtpName => 7,
            PrincipalNameType::NtEnterprise => 10,
        }
    }
}

impl PrincipalName {
    /// Build a principal name from its type and labels.
    pub fn new(pntype: PrincipalNameType, values: SequenceOf<GeneralString>) -> (r: Self)
        ensures
            r.deep_view() == (PrincipalNameView {
                name_type: pntype.spec_value(),
                name_string: values.deep_view(),
            }),
    {
        PrincipalName { name_type: Tag::new(pntype.value()), name_string: Tag::new(values) }
    }
}

impl HostAddress {
    /// An empty address of type 0.
    pub fn new() -> (r: Self)
        ensures
            r.deep_view() == (HostAddressView { addr_type: 0, address: Seq::<u8>::empty() }),
    {
        HostAddress { addr_type: Tag::new(0), address: Tag::new(OctetString::new()) }
    }
}

} // verus!
