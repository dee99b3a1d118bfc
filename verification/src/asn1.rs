//! The semantic ASN.1 layer: every wire type of the toolkit implements
//! [`Asn1Data`], turning itself into an [`Asn1Value`] tree and back, and the
//! generic entry points [`to_der`], [`from_der`] and [`from_ber`] connect
//! those trees to bytes.
//!
//! Contracts speak about deep views: `spec_to_value` and `spec_from_value`
//! describe both directions, and every implementation proves
//! `lemma_round_trip`, so [`lemma_der_round_trip`] holds for each wire type.

use vstd::prelude::*;

verus! {

use crate::der::{
    enc, dec, value_wf, AsnValue, Asn1Value, GeneralizedTime, encode_value, parse_value,
    lemma_dec_enc,
};
use crate::error::{KerlabError, KerlabErrorKind};

/// A type with an ASN.1 wire form.
///
/// `spec_to_value` and `spec_from_value` say, over deep views, which value
/// tree the type writes and how a tree is read back; the executable
/// `to_value` and `from_value` follow them exactly, and `lemma_round_trip`
/// proves that reading a written tree yields the original view.
pub trait Asn1Data: DeepView + Sized {
    /// The views this type can write: field ranges, ASCII payloads.
    spec fn view_wf(v: Self::V) -> bool;

    /// The value tree a view is written as.
    spec fn spec_to_value(v: Self::V) -> AsnValue;

    /// How a value tree is read back, if it has the right shape.
    spec fn spec_from_value(a: AsnValue) -> Option<Self::V>;

    /// Write this value as a tree.
    fn to_value(&self) -> (r: Asn1Value)
        requires
            Self::view_wf(self.deep_view()),
        ensures
            r@ == Self::spec_to_value(self.deep_view()),
    ;

    /// Read a value back from a tree.
    fn from_value(a: &Asn1Value) -> (r: Result<Self, KerlabError>)
        ensures
            match r {
                Ok(x) => Self::spec_from_value(a@) == Some(x.deep_view()) && Self::view_wf(
                    x.deep_view(),
                ),
                Err(e) => Self::spec_from_value(a@) is None && e.spec_kind()
                    == KerlabErrorKind::Parsing,
            },
    ;

    /// Reading a written tree yields the original view, and the tree is one
    /// the byte codec handles losslessly.
    proof fn lemma_round_trip(v: Self::V)
        requires
            Self::view_wf(v),
        ensures
            Self::spec_from_value(Self::spec_to_value(v)) == Some(v),
            value_wf(Self::spec_to_value(v)),
    ;
}

// ------------------------------------------------------------------
// Generic byte-level entry points.
// ------------------------------------------------------------------

/// The DER bytes a view is written as.
pub open spec fn spec_to_der<T: Asn1Data>(v: T::V) -> Seq<u8> {
    enc(T::spec_to_value(v))
}

/// How a byte string is read back: one value tree covering the whole input,
/// then the type's reading of that tree.
pub open spec fn spec_from_bytes<T: Asn1Data>(s: Seq<u8>) -> Option<T::V> {
    match dec(s) {
        Some((a, n)) => if n == s.len() {
            T::spec_from_value(a)
        } else {
            None
        },
        None => None,
    }
}

/// Serialize a message as DER.
pub fn to_der<T: Asn1Data>(message: &T) -> (r: Vec<u8>)
    requires
        T::view_wf(message.deep_view()),
    ensures
        r@ == spec_to_der::<T>(message.deep_view()),
{
    let tree = message.to_value();
    encode_value(&tree)
}

/// Deserialize a message from a byte stream, accepting BER with definite
/// lengths (a superset of the DER the writer emits).
pub fn from_ber<T: Asn1Data>(stream: &[u8]) -> (r: Result<T, KerlabError>)
    ensures
        match r {
            Ok(x) => spec_from_bytes::<T>(stream@) == Some(x.deep_view()) && T::view_wf(
                x.deep_view(),
            ),
            Err(e) => spec_from_bytes::<T>(stream@) is None && e.spec_kind()
                == KerlabErrorKind::Parsing,
        },
{
    assert(stream@.subrange(0, stream@.len() as int) =~= stream@);
    let (tree, next) = match parse_value(stream, 0, stream.len()) {
        Ok(x) => x,
        Err(e) => {
            return Err(e);
        },
    };
    if next != stream.len() {
        return Err(KerlabError::new(KerlabErrorKind::Parsing, "trailing octets after value"));
    }
    T::from_value(&tree)
}

/// Deserialize a message from a DER stream. The reader is the BER reader:
/// DER is the subset of it that the writer emits.
pub fn from_der<T: Asn1Data>(stream: &[u8]) -> (r: Result<T, KerlabError>)
    ensures
        match r {
            Ok(x) => spec_from_bytes::<T>(stream@) == Some(x.deep_view()) && T::view_wf(
                x.deep_view(),
            ),
            Err(e) => spec_from_bytes::<T>(stream@) is None && e.spec_kind()
                == KerlabErrorKind::Parsing,
        },
{
    from_ber(stream)
}

/// DER round trip: reading back the encoding of any well-formed message
/// yields that message, for every type with an ASN.1 wire form.
pub proof fn lemma_der_round_trip<T: Asn1Data>(v: T::V)
    requires
        T::view_wf(v),
        spec_to_der::<T>(v).len() < 0x1_0000_0000_0000_0000,
    ensures
        spec_from_bytes::<T>(spec_to_der::<T>(v)) == Some(v),
{
    T::lemma_round_trip(v);
    lemma_dec_enc(T::spec_to_value(v), Seq::empty());
    assert(enc(T::spec_to_value(v)) + Seq::<u8>::empty() =~= enc(T::spec_to_value(v)));
}

// ------------------------------------------------------------------
// The tagged wrappers.
// ------------------------------------------------------------------

/// Marks a field of a SEQUENCE with its context tag `[N]` (EXPLICIT).
#[derive(Debug, Clone, PartialEq, Default)]
pub struct Tag<const N: u8, T> {
    /// The wrapped value.
    pub inner: T,
}

impl<const N: u8, T> Tag<N, T> {
    /// Wrap a value.
    pub fn new(inner: T) -> (r: Self)
        ensures
            r == (Tag::<N, T> { inner }),
    {
        Tag { inner }
    }
}

impl<const N: u8, T: DeepView> DeepView for Tag<N, T> {
    type V = T::V;

    open spec fn deep_view(&self) -> T::V {
        self.inner.deep_view()
    }
}

impl<const N: u8, T: Asn1Data> Asn1Data for Tag<N, T> {
    open spec fn view_wf(v: T::V) -> bool {
        N <= 30 && T::view_wf(v)
    }

    open spec fn spec_to_value(v: T::V) -> AsnValue {
        AsnValue::ContextTag(N, Box::new(T::spec_to_value(v)))
    }

    open spec fn spec_from_value(a: AsnValue) -> Option<T::V> {
        match a {
            AsnValue::ContextTag(m, inner) => if m == N && N <= 30 {
                T::spec_from_value(*inner)
            } else {
                None
            },
            _ => None,
        }
    }

    fn to_value(&self) -> (r: Asn1Value) {
        Asn1Value::ContextTag(N, Box::new(self.inner.to_value()))
    }

    fn from_value(a: &Asn1Value) -> (r: Result<Self, KerlabError>) {
        match a {
            Asn1Value::ContextTag(m, inner) => {
                if *m == N && N <= 30 {
                    match T::from_value(inner) {
                        Ok(x) => Ok(Tag { inner: x }),
                        Err(e) => Err(e),
                    }
                } else {
                    Err(KerlabError::new(KerlabErrorKind::Parsing, "unexpected context tag"))
                }
            },
            _ => Err(KerlabError::new(KerlabErrorKind::Parsing, "expected a context tag")),
        }
    }

    proof fn lemma_round_trip(v: T::V) {
        T::lemma_round_trip(v);
    }
}

/// Wraps a top-level message in its `[APPLICATION N]` tag.
#[derive(Debug, Clone, PartialEq, Default)]
pub struct Application<const N: u8, T> {
    /// The wrapped message body.
    pub inner: T,
}

impl<const N: u8, T: DeepView> DeepView for Application<N, T> {
    type V = T::V;

    open spec fn deep_view(&self) -> T::V {
        self.inner.deep_view()
    }
}

impl<const N: u8, T: Asn1Data> Asn1Data for Application<N, T> {
    open spec fn view_wf(v: T::V) -> bool {
        N <= 30 && T::view_wf(v)
    }

    open spec fn spec_to_value(v: T::V) -> AsnValue {
        AsnValue::ApplicationTag(N, Box::new(T::spec_to_value(v)))
    }

    open spec fn spec_from_value(a: AsnValue) -> Option<T::V> {
        match a {
            AsnValue::ApplicationTag(m, inner) => if m == N && N <= 30 {
                T::spec_from_value(*inner)
            } else {
                None
            },
            _ => None,
        }
    }

    fn to_value(&self) -> (r: Asn1Value) {
        Asn1Value::ApplicationTag(N, Box::new(self.inner.to_value()))
    }

    fn from_value(a: &Asn1Value) -> (r: Result<Self, KerlabError>) {
        match a {
            Asn1Value::ApplicationTag(m, inner) => {
                if *m == N && N <= 30 {
                    match T::from_value(inner) {
                        Ok(x) => Ok(Application { inner: x }),
                        Err(e) => Err(e),
                    }
                } else {
                    Err(KerlabError::new(KerlabErrorKind::Parsing, "unexpected application tag"))
                }
            },
            _ => Err(KerlabError::new(KerlabErrorKind::Parsing, "expected an application tag")),
        }
    }

    proof fn lemma_round_trip(v: T::V) {
        T::lemma_round_trip(v);
    }
}

// ------------------------------------------------------------------
// The universal primitives.
// ------------------------------------------------------------------

/// An unsigned 32-bit INTEGER.
pub type Integer = u32;

impl Asn1Data for u32 {
    open spec fn view_wf(v: u32) -> bool {
        true
    }

    open spec fn spec_to_value(v: u32) -> AsnValue {
        AsnValue::Integer(v as i64)
    }

    open spec fn spec_from_value(a: AsnValue) -> Option<u32> {
        match a {
            AsnValue::Integer(n) => if 0 <= n <= u32::MAX {
                Some(n as u32)
            } else {
                None
            },
            _ => None,
        }
    }

    fn to_value(&self) -> (r: Asn1Value) {
        Asn1Value::Integer(*self as i64)
    }

    fn from_value(a: &Asn1Value) -> (r: Result<Self, KerlabError>) {
        match a {
            Asn1Value::Integer(n) => {
                if 0 <= *n && *n <= u32::MAX as i64 {
                    Ok(*n as u32)
                } else {
                    Err(KerlabError::new(KerlabErrorKind::Parsing, "integer out of range"))
                }
            },
            _ => Err(KerlabError::new(KerlabErrorKind::Parsing, "expected an integer")),
        }
    }

    proof fn lemma_round_trip(v: u32) {
    }
}

/// A signed 32-bit INTEGER.
pub type SInteger = i32;

impl Asn1Data for i32 {
    open spec fn view_wf(v: i32) -> bool {
        true
    }

    open spec fn spec_to_value(v: i32) -> AsnValue {
        AsnValue::Integer(v as i64)
    }

    open spec fn spec_from_value(a: AsnValue) -> Option<i32> {
        match a {
            AsnValue::Integer(n) => if i32::MIN <= n <= i32::MAX {
                Some(n as i32)
            } else {
                None
            },
            _ => None,
        }
    }

    fn to_value(&self) -> (r: Asn1Value) {
        Asn1Value::Integer(*self as i64)
    }

    fn from_value(a: &Asn1Value) -> (r: Result<Self, KerlabError>) {
        match a {
            Asn1Value::Integer(n) => {
                if i32::MIN as i64 <= *n && *n <= i32::MAX as i64 {
                    Ok(*n as i32)
                } else {
                    Err(KerlabError::new(KerlabErrorKind::Parsing, "integer out of range"))
                }
            },
            _ => Err(KerlabError::new(KerlabErrorKind::Parsing, "expected an integer")),
        }
    }

    proof fn lemma_round_trip(v: i32) {
    }
}

/// A 64-bit ENUMERATED.
pub type Enumerate = i64;

impl Asn1Data for i64 {
    open spec fn view_wf(v: i64) -> bool {
        true
    }

    open spec fn spec_to_value(v: i64) -> AsnValue {
        AsnValue::Enumerated(v)
    }

    open spec fn spec_from_value(a: AsnValue) -> Option<i64> {
        match a {
            AsnValue::Enumerated(n) => Some(n),
            _ => None,
        }
    }

    fn to_value(&self) -> (r: Asn1Value) {
        Asn1Value::Enumerated(*self)
    }

    fn from_value(a: &Asn1Value) -> (r: Result<Self, KerlabError>) {
        match a {
            Asn1Value::Enumerated(n) => Ok(*n),
            _ => Err(KerlabError::new(KerlabErrorKind::Parsing, "expected an enumerated")),
        }
    }

    proof fn lemma_round_trip(v: i64) {
    }
}

/// An ordered SEQUENCE OF `T`.
pub type SequenceOf<T> = Vec<T>;

/// The trees a list of views is written as, in order.
pub open spec fn seq_to_values<T: Asn1Data>(v: Seq<T::V>) -> Seq<AsnValue> {
    v.map(|i: int, e: T::V| T::spec_to_value(e))
}

/// Read a list of trees back into views; every element must read.
pub open spec fn seq_from_values<T: Asn1Data>(cs: Seq<AsnValue>) -> Option<Seq<T::V>>
    decreases cs.len(),
{
    if cs.len() == 0 {
        Some(Seq::empty())
    } else {
        match T::spec_from_value(cs[0]) {
            Some(h) => match seq_from_values::<T>(cs.skip(1)) {
                Some(t) => Some(seq![h] + t),
                None => None,
            },
            None => None,
        }
    }
}

proof fn lemma_seq_round_trip<T: Asn1Data>(v: Seq<T::V>)
    requires
        forall|i: int| 0 <= i < v.len() ==> T::view_wf(#[trigger] v[i]),
    ensures
        seq_from_values::<T>(seq_to_values::<T>(v)) == Some(v),
        forall|i: int| 0 <= i < v.len() ==> value_wf(#[trigger] seq_to_values::<T>(v)[i]),
    decreases v.len(),
{
    assert forall|i: int| 0 <= i < v.len() implies value_wf(
        #[trigger] seq_to_values::<T>(v)[i],
    ) by {
        T::lemma_round_trip(v[i]);
    }
    if v.len() > 0 {
        T::lemma_round_trip(v[0]);
        lemma_seq_round_trip::<T>(v.skip(1));
        assert(seq_to_values::<T>(v).skip(1) =~= seq_to_values::<T>(v.skip(1)));
        assert(seq![v[0]] + v.skip(1) =~= v);
    }
}

impl<T: Asn1Data> Asn1Data for Vec<T> {
    open spec fn view_wf(v: Seq<T::V>) -> bool {
        forall|i: int| 0 <= i < v.len() ==> T::view_wf(#[trigger] v[i])
    }

    open spec fn spec_to_value(v: Seq<T::V>) -> AsnValue {
        AsnValue::Sequence(seq_to_values::<T>(v))
    }

    open spec fn spec_from_value(a: AsnValue) -> Option<Seq<T::V>> {
        match a {
            AsnValue::Sequence(cs) => seq_from_values::<T>(cs),
            _ => None,
        }
    }

    fn to_value(&self) -> (r: Asn1Value) {
        let mut children: Vec<Asn1Value> = Vec::new();
        let mut i: usize = 0;
        while i < self.len()
            invariant
                i <= self.len(),
                Vec::<T>::view_wf(self.deep_view()),
                self.deep_view().len() == self@.len(),
                crate::der::view_list(children@) == seq_to_values::<T>(self.deep_view()).take(
                    i as int,
                ),
            decreases self.len() - i,
        {
            proof {
                assert(self.deep_view()[i as int] == self@[i as int].deep_view());
            }
            let child = self[i].to_value();
            let ghost ch0 = children@;
            children.push(child);
            proof {
                assert(children@.drop_last() =~= ch0);
                assert(children@.last() == child);
                assert(crate::der::view_list(children@) == crate::der::view_list(ch0).push(
                    child@,
                ));
                assert(seq_to_values::<T>(self.deep_view())[i as int] == T::spec_to_value(
                    self.deep_view()[i as int],
                ));
                assert(crate::der::view_list(children@) =~= seq_to_values::<T>(
                    self.deep_view(),
                ).take(i + 1));
            }
            i += 1;
        }
        assert(seq_to_values::<T>(self.deep_view()).take(self.deep_view().len() as int)
            =~= seq_to_values::<T>(self.deep_view()));
        Asn1Value::Sequence(children)
    }

    fn from_value(a: &Asn1Value) -> (r: Result<Self, KerlabError>) {
        match a {
            Asn1Value::Sequence(cs) => {
                let ghost vl = crate::der::view_list(cs@);
                proof {
                    crate::der::lemma_view_list(cs@);
                    assert(vl.skip(0) =~= vl);
                }
                let mut acc: Vec<T> = Vec::new();
                let mut i: usize = 0;
                while i < cs.len()
                    invariant
                        i <= cs.len(),
                        a@ == AsnValue::Sequence(vl),
                        vl == crate::der::view_list(cs@),
                        vl.len() == cs@.len(),
                        forall|j: int| 0 <= j < cs@.len() ==> vl[j] == #[trigger] cs@[j]@,
                        forall|j: int|
                            0 <= j < acc@.len() ==> T::view_wf(#[trigger] acc.deep_view()[j]),
                        acc@.len() == i,
                        acc.deep_view().len() == i,
                        (seq_from_values::<T>(vl.skip(i as int)) matches Some(rest)
                            ==> seq_from_values::<T>(vl) == Some(acc.deep_view() + rest)),
                        (seq_from_values::<T>(vl.skip(i as int)) is None ==> seq_from_values::<
                            T,
                        >(vl) is None),
                    decreases cs.len() - i,
                {
                    let x = match T::from_value(&cs[i]) {
                        Ok(x) => x,
                        Err(e) => {
                            assert(vl.skip(i as int)[0] == vl[i as int]);
                            assert(vl[i as int] == cs@[i as int]@);
                            return Err(e);
                        },
                    };
                    proof {
                        assert(vl.skip(i as int)[0] == vl[i as int]);
                        assert(vl.skip(i as int).skip(1) =~= vl.skip(i + 1));
                        let ghost acc2 = acc.deep_view().push(x.deep_view());
                        match seq_from_values::<T>(vl.skip(i + 1)) {
                            Some(rest2) => {
                                assert(seq_from_values::<T>(vl.skip(i as int)) == Some(
                                    seq![x.deep_view()] + rest2,
                                ));
                                assert(acc.deep_view() + (seq![x.deep_view()] + rest2)
                                    =~= acc2 + rest2);
                            },
                            None => {},
                        }
                    }
                    let ghost accv = acc.deep_view();
                    acc.push(x);
                    proof {
                        assert(acc.deep_view() =~= accv.push(x.deep_view()));
                    }
                    i += 1;
                }
                proof {
                    assert(vl.skip(cs@.len() as int) =~= Seq::<AsnValue>::empty());
                    assert(acc.deep_view() + Seq::<T::V>::empty() =~= acc.deep_view());
                }
                Ok(acc)
            },
            _ => Err(KerlabError::new(KerlabErrorKind::Parsing, "expected a sequence")),
        }
    }

    proof fn lemma_round_trip(v: Seq<T::V>) {
        lemma_seq_round_trip::<T>(v);
    }
}

/// An OCTET STRING: an opaque byte string.
#[derive(Debug, Clone, PartialEq, Default)]
pub struct OctetString {
    /// The raw bytes.
    pub data: Vec<u8>,
}

impl OctetString {
    /// An empty byte string.
    pub fn new() -> (r: Self)
        ensures
            r.deep_view() == Seq::<u8>::empty(),
    {
        OctetString { data: Vec::new() }
    }

    /// Wrap raw bytes.
    pub fn from_vec(data: Vec<u8>) -> (r: Self)
        ensures
            r.deep_view() == data@,
    {
        OctetString { data }
    }

    /// The raw bytes.
    pub fn as_slice(&self) -> (r: &[u8])
        ensures
            r@ == self.deep_view(),
    {
        self.data.as_slice()
    }
}

impl DeepView for OctetString {
    type V = Seq<u8>;

    open spec fn deep_view(&self) -> Seq<u8> {
        self.data@
    }
}

impl Asn1Data for OctetString {
    open spec fn view_wf(v: Seq<u8>) -> bool {
        true
    }

    open spec fn spec_to_value(v: Seq<u8>) -> AsnValue {
        AsnValue::OctetString(v)
    }

    open spec fn spec_from_value(a: AsnValue) -> Option<Seq<u8>> {
        match a {
            AsnValue::OctetString(d) => Some(d),
            _ => None,
        }
    }

    fn to_value(&self) -> (r: Asn1Value) {
        Asn1Value::OctetString(vstd::slice::slice_to_vec(self.data.as_slice()))
    }

    fn from_value(a: &Asn1Value) -> (r: Result<Self, KerlabError>) {
        match a {
            Asn1Value::OctetString(d) => Ok(
                OctetString { data: vstd::slice::slice_to_vec(d.as_slice()) },
            ),
            _ => Err(KerlabError::new(KerlabErrorKind::Parsing, "expected an octet string")),
        }
    }

    proof fn lemma_round_trip(v: Seq<u8>) {
    }
}

/// A GeneralString: the ASCII strings Kerberos uses for names and realms.
#[derive(Debug, Clone, PartialEq, Default)]
pub struct GeneralString {
    /// The ASCII bytes of the string.
    pub bytes: Vec<u8>,
}

impl GeneralString {
    /// Build a GeneralString from ASCII text; text with characters above
    /// `0x7f` is rejected with a `Parsing` error.
    pub fn from_ascii(text: &str) -> (r: Result<Self, KerlabError>)
        ensures
            match r {
                Ok(g) => vstd::string::is_ascii(text) && g.deep_view() == ascii_bytes(text@)
                    && GeneralString::view_wf(g.deep_view()),
                Err(e) => !vstd::string::is_ascii(text) && e.spec_kind()
                    == KerlabErrorKind::Parsing,
            },
    {
        if !text.is_ascii() {
            return Err(KerlabError::new(KerlabErrorKind::Parsing, "text is not ASCII"));
        }
        let bytes = vstd::slice::slice_to_vec(text.as_bytes());
        proof {
            vstd::string::is_ascii_spec_bytes(text);
            assert(bytes@ =~= ascii_bytes(text@));
            assert forall|i: int| 0 <= i < bytes@.len() implies bytes@[i] < 128 by {
                assert(text@[i] <= '\u{7f}');
            }
        }
        Ok(GeneralString { bytes })
    }

    /// Build a GeneralString from ASCII text; same as [`Self::from_ascii`].
    pub fn from_str(text: &str) -> (r: Result<Self, KerlabError>)
        ensures
            match r {
                Ok(g) => vstd::string::is_ascii(text) && g.deep_view() == ascii_bytes(text@)
                    && GeneralString::view_wf(g.deep_view()),
                Err(e) => !vstd::string::is_ascii(text) && e.spec_kind()
                    == KerlabErrorKind::Parsing,
            },
    {
        Self::from_ascii(text)
    }

    /// The ASCII bytes of the string.
    pub fn as_bytes(&self) -> (r: &[u8])
        ensures
            r@ == self.deep_view(),
    {
        self.bytes.as_slice()
    }
}

impl DeepView for GeneralString {
    type V = Seq<u8>;

    open spec fn deep_view(&self) -> Seq<u8> {
        self.bytes@
    }
}

impl Asn1Data for GeneralString {
    open spec fn view_wf(v: Seq<u8>) -> bool {
        forall|i: int| 0 <= i < v.len() ==> v[i] < 128
    }

    open spec fn spec_to_value(v: Seq<u8>) -> AsnValue {
        AsnValue::GeneralString(v)
    }

    open spec fn spec_from_value(a: AsnValue) -> Option<Seq<u8>> {
        match a {
            AsnValue::GeneralString(d) => if forall|i: int| 0 <= i < d.len() ==> d[i] < 128 {
                Some(d)
            } else {
                None
            },
            _ => None,
        }
    }

    fn to_value(&self) -> (r: Asn1Value) {
        Asn1Value::GeneralString(vstd::slice::slice_to_vec(self.bytes.as_slice()))
    }

    fn from_value(a: &Asn1Value) -> (r: Result<Self, KerlabError>) {
        match a {
            Asn1Value::GeneralString(d) => {
                let mut i: usize = 0;
                while i < d.len()
                    invariant
                        i <= d@.len(),
                        a@ == AsnValue::GeneralString(d@),
                        forall|j: int| 0 <= j < i ==> d@[j] < 128,
                    decreases d@.len() - i,
                {
                    if d[i] >= 128 {
                        assert(!(forall|j: int| 0 <= j < d@.len() ==> d@[j] < 128));
                        return Err(
                            KerlabError::new(KerlabErrorKind::Parsing, "string is not ASCII"),
                        );
                    }
                    i += 1;
                }
                Ok(GeneralString { bytes: vstd::slice::slice_to_vec(d.as_slice()) })
            },
            _ => Err(KerlabError::new(KerlabErrorKind::Parsing, "expected a general string")),
        }
    }

    proof fn lemma_round_trip(v: Seq<u8>) {
    }
}

/// A BIT STRING: data octets plus the count of unused bits in the last one.
#[derive(Debug, Clone, PartialEq, Default)]
pub struct BitString {
    /// How many low bits of the last data octet carry no information.
    pub unused: u8,
    /// The bit data, most significant bit first.
    pub data: Vec<u8>,
}

/// The deep view of a [`BitString`].
pub struct BitStringView {
    pub unused: u8,
    pub data: Seq<u8>,
}

impl BitString {
    /// An empty bit string.
    pub fn new() -> (r: Self)
        ensures
            r.deep_view() == (BitStringView { unused: 0, data: Seq::<u8>::empty() }),
    {
        BitString { unused: 0, data: Vec::new() }
    }

    /// A bit string of whole octets, most significant bit first.
    pub fn from_bytes(bytes: &[u8]) -> (r: Self)
        ensures
            r.deep_view() == (BitStringView { unused: 0, data: bytes@ }),
    {
        BitString { unused: 0, data: vstd::slice::slice_to_vec(bytes) }
    }
}

impl DeepView for BitString {
    type V = BitStringView;

    open spec fn deep_view(&self) -> BitStringView {
        BitStringView { unused: self.unused, data: self.data@ }
    }
}

impl Asn1Data for BitString {
    open spec fn view_wf(v: BitStringView) -> bool {
        v.unused <= 7
    }

    open spec fn spec_to_value(v: BitStringView) -> AsnValue {
        AsnValue::BitString(v.unused, v.data)
    }

    open spec fn spec_from_value(a: AsnValue) -> Option<BitStringView> {
        match a {
            AsnValue::BitString(unused, data) => if unused <= 7 {
                Some(BitStringView { unused, data })
            } else {
                None
            },
            _ => None,
        }
    }

    fn to_value(&self) -> (r: Asn1Value) {
        Asn1Value::BitString(self.unused, vstd::slice::slice_to_vec(self.data.as_slice()))
    }

    fn from_value(a: &Asn1Value) -> (r: Result<Self, KerlabError>) {
        match a {
            Asn1Value::BitString(unused, data) => {
                if *unused <= 7 {
                    Ok(
                        BitString {
                            unused: *unused,
                            data: vstd::slice::slice_to_vec(data.as_slice()),
                        },
                    )
                } else {
                    Err(KerlabError::new(KerlabErrorKind::Parsing, "bad unused bit count"))
                }
            },
            _ => Err(KerlabError::new(KerlabErrorKind::Parsing, "expected a bit string")),
        }
    }

    proof fn lemma_round_trip(v: BitStringView) {
    }
}

/// Moving an element from the end of a prefix to the front of a suffix
/// keeps the concatenation.
pub proof fn lemma_snoc_concat<T>(a: Seq<T>, e: T, t: Seq<T>)
    ensures
        a.push(e) + t == a + (seq![e] + t),
{
    assert(a.push(e) + t =~= a + (seq![e] + t));
}

/// Skipping the head of a cons leaves the tail.
pub proof fn lemma_cons_skip<T>(e: T, t: Seq<T>)
    ensures
        (seq![e] + t).skip(1) == t,
{
    assert((seq![e] + t).skip(1) =~= t);
}

/// Skipping one more element moves the cut by one.
pub proof fn lemma_skip_skip<T>(s: Seq<T>, i: int)
    requires
        0 <= i < s.len(),
    ensures
        s.skip(i).skip(1) == s.skip(i + 1),
{
    assert(s.skip(i).skip(1) =~= s.skip(i + 1));
}

/// The empty sequence is neutral on the right.
pub proof fn lemma_concat_nil<T>(a: Seq<T>)
    ensures
        a + Seq::<T>::empty() == a,
{
    assert(a + Seq::<T>::empty() =~= a);
}

/// The empty sequence is neutral on the left.
pub proof fn lemma_nil_concat<T>(t: Seq<T>)
    ensures
        Seq::<T>::empty() + t == t,
{
    assert(Seq::<T>::empty() + t =~= t);
}

/// The bytes of an ASCII character sequence, character for character.
pub open spec fn ascii_bytes(text: Seq<char>) -> Seq<u8> {
    Seq::new(text.len(), |i: int| text[i] as u8)
}

/// Does this tree carry context tag `[n]`?
pub open spec fn has_ctx(a: AsnValue, n: u8) -> bool {
    a matches AsnValue::ContextTag(m, _) && m == n
}

/// Executable test for [`has_ctx`], used to decide whether an OPTIONAL
/// field is present.
pub fn is_ctx(a: &Asn1Value, n: u8) -> (r: bool)
    ensures
        r == has_ctx(a@, n),
{
    match a {
        Asn1Value::ContextTag(m, _) => *m == n,
        _ => false,
    }
}

impl DeepView for GeneralizedTime {
    type V = GeneralizedTime;

    open spec fn deep_view(&self) -> GeneralizedTime {
        *self
    }
}

impl Asn1Data for GeneralizedTime {
    open spec fn view_wf(v: GeneralizedTime) -> bool {
        v.wf()
    }

    open spec fn spec_to_value(v: GeneralizedTime) -> AsnValue {
        AsnValue::Time(v)
    }

    open spec fn spec_from_value(a: AsnValue) -> Option<GeneralizedTime> {
        match a {
            AsnValue::Time(t) => if t.wf() {
                Some(t)
            } else {
                None
            },
            _ => None,
        }
    }

    fn to_value(&self) -> (r: Asn1Value) {
        Asn1Value::Time(*self)
    }

    fn from_value(a: &Asn1Value) -> (r: Result<Self, KerlabError>) {
        match a {
            Asn1Value::Time(t) => {
                if t.month >= 1 && t.month <= 12 && t.day >= 1 && t.day <= 31 && t.hour <= 23
                    && t.minute <= 59 && t.second <= 59 && t.year <= 9999 {
                    Ok(*t)
                } else {
                    Err(KerlabError::new(KerlabErrorKind::Parsing, "time field out of range"))
                }
            },
            _ => Err(KerlabError::new(KerlabErrorKind::Parsing, "expected a time")),
        }
    }

    proof fn lemma_round_trip(v: GeneralizedTime) {
    }
}

impl Asn1Data for bool {
    open spec fn view_wf(v: bool) -> bool {
        true
    }

    open spec fn spec_to_value(v: bool) -> AsnValue {
        AsnValue::Boolean(v)
    }

    open spec fn spec_from_value(a: AsnValue) -> Option<bool> {
        match a {
            AsnValue::Boolean(b) => Some(b),
            _ => None,
        }
    }

    fn to_value(&self) -> (r: Asn1Value) {
        Asn1Value::Boolean(*self)
    }

    fn from_value(a: &Asn1Value) -> (r: Result<Self, KerlabError>) {
        match a {
            Asn1Value::Boolean(b) => Ok(*b),
            _ => Err(KerlabError::new(KerlabErrorKind::Parsing, "expected a boolean")),
        }
    }

    proof fn lemma_round_trip(v: bool) {
    }
}

} // verus!
