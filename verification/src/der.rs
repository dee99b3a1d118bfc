//! The ASN.1 value tree and its byte codec.
//!
//! Every wire structure of the toolkit is first turned into an [`Asn1Value`]
//! tree and then written as DER; reading goes the other way. The ghost mirror
//! [`AsnValue`] states what the bytes mean: [`enc`] is the DER writer and
//! [`dec`] the BER reader, and [`lemma_dec_enc`] proves that reading back an
//! encoding yields the original tree.

use vstd::prelude::*;

verus! {

use crate::error::{KerlabError, KerlabErrorKind};

/// A UTC instant as rendered on the wire: `YYYYMMDDHHMMSSZ`.
#[derive(Clone, Copy, Debug, PartialEq, Eq, Structural, Default)]
pub struct GeneralizedTime {
    pub year: u16,
    pub month: u8,
    pub day: u8,
    pub hour: u8,
    pub minute: u8,
    pub second: u8,
}

impl GeneralizedTime {
    /// The field ranges under which the wire rendering parses back losslessly.
    pub open spec fn wf(&self) -> bool {
        self.year <= 9999 && 1 <= self.month <= 12 && 1 <= self.day <= 31
            && self.hour <= 23 && self.minute <= 59 && self.second <= 59
    }

    /// Build a time from its calendar fields.
    pub fn new(year: u16, month: u8, day: u8, hour: u8, minute: u8, second: u8) -> (r: Self)
        ensures
            r == (GeneralizedTime { year, month, day, hour, minute, second }),
    {
        GeneralizedTime { year, month, day, hour, minute, second }
    }
}

/// An ASN.1 value tree, as built and consumed by executable code.
///
/// The universal types carried here are the ones Kerberos uses: INTEGER and
/// ENUMERATED (both held as `i64`), BOOLEAN, OCTET STRING, BIT STRING (unused
/// bit count plus data), GeneralString (ASCII bytes), GeneralizedTime,
/// SEQUENCE, and the two tagged forms `[N]` (context) and `[APPLICATION N]`.
#[derive(Debug)]
pub enum Asn1Value {
    Boolean(bool),
    Integer(i64),
    BitString(u8, Vec<u8>),
    OctetString(Vec<u8>),
    Enumerated(i64),
    Time(GeneralizedTime),
    GeneralString(Vec<u8>),
    Sequence(Vec<Asn1Value>),
    ContextTag(u8, Box<Asn1Value>),
    ApplicationTag(u8, Box<Asn1Value>),
}

/// The ghost mirror of [`Asn1Value`]: what contracts and the codec
/// specifications speak about.
#[verifier::ext_equal]
pub enum AsnValue {
    Boolean(bool),
    Integer(i64),
    BitString(u8, Seq<u8>),
    OctetString(Seq<u8>),
    Enumerated(i64),
    Time(GeneralizedTime),
    GeneralString(Seq<u8>),
    Sequence(Seq<AsnValue>),
    ContextTag(u8, Box<AsnValue>),
    ApplicationTag(u8, Box<AsnValue>),
}

pub open spec fn view_list(cs: Seq<Asn1Value>) -> Seq<AsnValue>
    decreases cs,
{
    if cs.len() == 0 {
        Seq::empty()
    } else {
        view_list(cs.drop_last()).push(cs.last()@)
    }
}

impl View for Asn1Value {
    type V = AsnValue;

    open spec fn view(&self) -> AsnValue
        decreases self,
    {
        match self {
            Asn1Value::Boolean(b) => AsnValue::Boolean(*b),
            Asn1Value::Integer(n) => AsnValue::Integer(*n),
            Asn1Value::BitString(unused, data) => AsnValue::BitString(*unused, data@),
            Asn1Value::OctetString(data) => AsnValue::OctetString(data@),
            Asn1Value::Enumerated(n) => AsnValue::Enumerated(*n),
            Asn1Value::Time(t) => AsnValue::Time(*t),
            Asn1Value::GeneralString(data) => AsnValue::GeneralString(data@),
            Asn1Value::Sequence(cs) => AsnValue::Sequence(view_list(cs@)),
            Asn1Value::ContextTag(n, inner) => AsnValue::ContextTag(*n, Box::new((**inner)@)),
            Asn1Value::ApplicationTag(n, inner) => AsnValue::ApplicationTag(*n, Box::new((**inner)@)),
        }
    }
}

/// `view_list` is pointwise `view`.
pub proof fn lemma_view_list(cs: Seq<Asn1Value>)
    ensures
        view_list(cs).len() == cs.len(),
        forall|i: int| 0 <= i < cs.len() ==> view_list(cs)[i] == #[trigger] cs[i]@,
    decreases cs.len(),
{
    if cs.len() > 0 {
        lemma_view_list(cs.drop_last());
        assert(view_list(cs) == view_list(cs.drop_last()).push(cs.last()@));
        assert forall|i: int| 0 <= i < cs.len() implies view_list(cs)[i] == #[trigger] cs[i]@ by {
            if i < cs.len() - 1 {
                assert(cs.drop_last()[i] == cs[i]);
                assert(view_list(cs)[i] == view_list(cs.drop_last())[i]);
            } else {
                assert(cs[i] == cs.last());
            }
        }
    }
}

/// Which trees the writer handles losslessly: tag numbers at most 30 (a
/// single identifier octet), ASCII payloads in GeneralString, calendar fields
/// in range, and at most 7 unused bits in a BIT STRING.
pub open spec fn value_wf(v: AsnValue) -> bool
    decreases v,
{
    match v {
        AsnValue::Boolean(_) => true,
        AsnValue::Integer(_) => true,
        AsnValue::BitString(unused, _) => unused <= 7,
        AsnValue::OctetString(_) => true,
        AsnValue::Enumerated(_) => true,
        AsnValue::Time(t) => t.wf(),
        AsnValue::GeneralString(data) => forall|i: int| 0 <= i < data.len() ==> data[i] < 128,
        AsnValue::Sequence(cs) => forall|i: int| 0 <= i < cs.len() ==> value_wf(#[trigger] cs[i]),
        AsnValue::ContextTag(n, inner) => n <= 30 && value_wf(*inner),
        AsnValue::ApplicationTag(n, inner) => n <= 30 && value_wf(*inner),
    }
}

// ------------------------------------------------------------------
// The DER writer, as a specification.
// ------------------------------------------------------------------

/// Minimal big-endian base-256 digits of `n`.
pub open spec fn base256(n: nat) -> Seq<u8>
    decreases n,
{
    if n < 256 {
        seq![n as u8]
    } else {
        base256(n / 256).push((n % 256) as u8)
    }
}

/// DER definite length: short form below 128, else long form with the
/// minimal number of length octets.
pub open spec fn len_bytes(n: nat) -> Seq<u8> {
    if n < 128 {
        seq![n as u8]
    } else {
        seq![(128 + base256(n).len()) as u8] + base256(n)
    }
}

/// One tag-length-value triple.
pub open spec fn tlv(tag: u8, content: Seq<u8>) -> Seq<u8> {
    seq![tag] + len_bytes(content.len()) + content
}

/// Minimal two's-complement content octets of an INTEGER.
pub open spec fn int_content(n: int) -> Seq<u8>
    decreases (if n >= 0 { n } else { -n - 1 }),
{
    if -128 <= n < 128 {
        seq![(n % 256) as u8]
    } else {
        int_content(n / 256).push((n % 256) as u8)
    }
}

/// Two ASCII digits, most significant first.
pub open spec fn two_digits(x: int) -> Seq<u8> {
    seq![(48 + x / 10) as u8, (48 + x % 10) as u8]
}

/// The 15-byte `YYYYMMDDHHMMSSZ` rendering of a time.
pub open spec fn time_bytes(t: GeneralizedTime) -> Seq<u8> {
    two_digits(t.year as int / 100) + two_digits(t.year as int % 100) + two_digits(t.month as int)
        + two_digits(t.day as int) + two_digits(t.hour as int) + two_digits(t.minute as int)
        + two_digits(t.second as int) + seq![90u8]
}

/// The DER encoding of a value tree.
pub open spec fn enc(v: AsnValue) -> Seq<u8>
    decreases v,
{
    match v {
        AsnValue::Boolean(b) => tlv(1, seq![if b { 255u8 } else { 0u8 }]),
        AsnValue::Integer(n) => tlv(2, int_content(n as int)),
        AsnValue::BitString(unused, data) => tlv(3, seq![unused] + data),
        AsnValue::OctetString(data) => tlv(4, data),
        AsnValue::Enumerated(n) => tlv(10, int_content(n as int)),
        AsnValue::Time(t) => tlv(24, time_bytes(t)),
        AsnValue::GeneralString(data) => tlv(27, data),
        AsnValue::Sequence(cs) => tlv(48, enc_list(cs)),
        AsnValue::ContextTag(n, inner) => tlv((160 + n) as u8, enc(*inner)),
        AsnValue::ApplicationTag(n, inner) => tlv((96 + n) as u8, enc(*inner)),
    }
}

/// The concatenated encodings of a list of trees.
pub open spec fn enc_list(cs: Seq<AsnValue>) -> Seq<u8>
    decreases cs,
{
    if cs.len() == 0 {
        Seq::empty()
    } else {
        enc(cs[0]) + enc_list(cs.skip(1))
    }
}

// ------------------------------------------------------------------
// The BER reader, as a specification.
// ------------------------------------------------------------------

/// The big-endian value of a digit string.
pub open spec fn be_value(s: Seq<u8>) -> nat
    decreases s.len(),
{
    if s.len() == 0 {
        0
    } else {
        (be_value(s.drop_last()) * 256 + s.last()) as nat
    }
}

/// Read a definite length: the length itself plus how many octets held it.
/// Indefinite form and more than eight length octets are rejected.
pub open spec fn dec_len(s: Seq<u8>) -> Option<(nat, nat)> {
    if s.len() == 0 {
        None
    } else if s[0] < 128 {
        Some((s[0] as nat, 1))
    } else {
        let m = s[0] - 128;
        if m == 0 || m > 8 || s.len() < 1 + m {
            None
        } else {
            Some((be_value(s.subrange(1, 1 + m)), (1 + m) as nat))
        }
    }
}

/// The two's-complement value of INTEGER content octets.
pub open spec fn int_value(s: Seq<u8>) -> int
    decreases s.len(),
{
    if s.len() == 0 {
        0
    } else if s.len() == 1 {
        if s[0] < 128 {
            s[0] as int
        } else {
            s[0] - 256
        }
    } else {
        int_value(s.drop_last()) * 256 + s.last()
    }
}

/// Read INTEGER content: one to eight octets, minimally encoded.
pub open spec fn int_from(s: Seq<u8>) -> Option<int> {
    if 1 <= s.len() <= 8 && !(s.len() >= 2 && s[0] == 0 && s[1] < 128) && !(s.len() >= 2
        && s[0] == 255 && s[1] >= 128) {
        Some(int_value(s))
    } else {
        None
    }
}

pub open spec fn is_digit(b: u8) -> bool {
    48 <= b <= 57
}

/// The value of two ASCII digits.
pub open spec fn digit2(s: Seq<u8>, i: int) -> int {
    (s[i] - 48) * 10 + (s[i + 1] - 48)
}

/// Read `YYYYMMDDHHMMSSZ` content, checking the calendar field ranges.
pub open spec fn time_from(s: Seq<u8>) -> Option<GeneralizedTime> {
    if s.len() == 15 && (forall|i: int| 0 <= i < 14 ==> is_digit(#[trigger] s[i])) && s[14]
        == 90 {
        let t = GeneralizedTime {
            year: (digit2(s, 0) * 100 + digit2(s, 2)) as u16,
            month: digit2(s, 4) as u8,
            day: digit2(s, 6) as u8,
            hour: digit2(s, 8) as u8,
            minute: digit2(s, 10) as u8,
            second: digit2(s, 12) as u8,
        };
        if t.wf() {
            Some(t)
        } else {
            None
        }
    } else {
        None
    }
}

/// Read one value from the front of `s`: the tree plus the octets consumed.
pub open spec fn dec(s: Seq<u8>) -> Option<(AsnValue, nat)>
    decreases s.len(), 0nat,
{
    if s.len() < 2 {
        None
    } else {
        let tag = s[0];
        match dec_len(s.skip(1)) {
            None => None,
            Some((clen, lsz)) => {
                let hdr = 1 + lsz;
                if s.len() < hdr + clen {
                    None
                } else {
                    let content = s.subrange(hdr as int, (hdr + clen) as int);
                    let total = (hdr + clen) as nat;
                    dec_body(tag, content, total)
                }
            },
        }
    }
}

/// Interpret the content octets of one tag-length-value triple.
pub open spec fn dec_body(tag: u8, content: Seq<u8>, total: nat) -> Option<(AsnValue, nat)>
    decreases content.len(), 2nat,
{
    if tag == 1 {
        if content.len() == 1 {
            Some((AsnValue::Boolean(content[0] != 0), total))
        } else {
            None
        }
    } else if tag == 2 || tag == 10 {
        match int_from(content) {
            None => None,
            Some(n) => if -0x8000_0000_0000_0000 <= n <= 0x7fff_ffff_ffff_ffff {
                if tag == 2 {
                    Some((AsnValue::Integer(n as i64), total))
                } else {
                    Some((AsnValue::Enumerated(n as i64), total))
                }
            } else {
                None
            },
        }
    } else if tag == 3 {
        if content.len() >= 1 && content[0] <= 7 {
            Some((AsnValue::BitString(content[0], content.skip(1)), total))
        } else {
            None
        }
    } else if tag == 4 {
        Some((AsnValue::OctetString(content), total))
    } else if tag == 24 {
        match time_from(content) {
            None => None,
            Some(t) => Some((AsnValue::Time(t), total)),
        }
    } else if tag == 27 {
        if forall|i: int| 0 <= i < content.len() ==> #[trigger] content[i] < 128 {
            Some((AsnValue::GeneralString(content), total))
        } else {
            None
        }
    } else if tag == 48 {
        match dec_list(content) {
            None => None,
            Some(cs) => Some((AsnValue::Sequence(cs), total)),
        }
    } else if 160 <= tag <= 190 {
        match dec(content) {
            None => None,
            Some((inner, n)) => if n == content.len() {
                Some((AsnValue::ContextTag((tag - 160) as u8, Box::new(inner)), total))
            } else {
                None
            },
        }
    } else if 96 <= tag <= 126 {
        match dec(content) {
            None => None,
            Some((inner, n)) => if n == content.len() {
                Some((AsnValue::ApplicationTag((tag - 96) as u8, Box::new(inner)), total))
            } else {
                None
            },
        }
    } else {
        None
    }
}

/// Read values until `s` is exhausted.
pub open spec fn dec_list(s: Seq<u8>) -> Option<Seq<AsnValue>>
    decreases s.len(), 1nat,
{
    if s.len() == 0 {
        Some(Seq::empty())
    } else {
        match dec(s) {
            None => None,
            Some((v, n)) => if 1 <= n <= s.len() {
                match dec_list(s.skip(n as int)) {
                    None => None,
                    Some(rest) => Some(seq![v] + rest),
                }
            } else {
                None
            },
        }
    }
}

// ------------------------------------------------------------------
// Reading back an encoding yields the original tree.
// ------------------------------------------------------------------

pub open spec fn pow256(k: nat) -> nat
    decreases k,
{
    if k == 0 {
        1
    } else {
        256 * pow256((k - 1) as nat)
    }
}

/// `base256` digits are minimal and `be_value` recovers their value.
pub proof fn lemma_base256(n: nat, k: nat)
    requires
        k >= 1,
        n < pow256(k),
    ensures
        1 <= base256(n).len() <= k,
        be_value(base256(n)) == n,
    decreases k,
{
    reveal_with_fuel(pow256, 3);
    reveal_with_fuel(be_value, 3);
    if n < 256 {
        assert(base256(n) == seq![n as u8]);
        assert(base256(n).drop_last() =~= Seq::<u8>::empty());
    } else {
        assert(k >= 2) by {
            reveal_with_fuel(pow256, 3);
            if k == 1 {
                assert(pow256(1nat) == 256);
            }
        }
        assert(n / 256 < pow256((k - 1) as nat)) by {
            assert(pow256(k) == 256 * pow256((k - 1) as nat));
            assert(n < 256 * pow256((k - 1) as nat));
            assert(n / 256 < pow256((k - 1) as nat)) by (nonlinear_arith)
                requires
                    n < 256 * pow256((k - 1) as nat),
            ;
        }
        lemma_base256(n / 256, (k - 1) as nat);
        let digits = base256(n / 256).push((n % 256) as u8);
        assert(base256(n) == digits);
        assert(digits.drop_last() =~= base256(n / 256));
        assert(be_value(digits) == be_value(base256(n / 256)) * 256 + (n % 256));
        assert((n / 256) * 256 + n % 256 == n);
    }
}

/// Every length below 2^64 round-trips through `len_bytes` and `dec_len`.
pub proof fn lemma_len_bytes(n: nat, rest: Seq<u8>)
    requires
        n < 0x1_0000_0000_0000_0000,
    ensures
        dec_len(len_bytes(n) + rest) == Some((n, len_bytes(n).len())),
        1 <= len_bytes(n).len() <= 9,
    decreases n,
{
    let s = len_bytes(n) + rest;
    if n < 128 {
        assert(s[0] == n as u8);
    } else {
        assert(pow256(8nat) == 0x1_0000_0000_0000_0000) by {
            reveal_with_fuel(pow256, 9);
        }
        lemma_base256(n, 8);
        let digits = base256(n);
        let m = digits.len();
        assert(s[0] == (128 + m) as u8);
        assert(s[0] >= 129);
        assert(s[0] - 128 == m);
        assert(s.len() >= 1 + m);
        assert(s.subrange(1, 1 + m as int) =~= digits);
    }
}

/// INTEGER content octets are minimal and recover their value.
pub proof fn lemma_int_content(n: int)
    ensures
        1 <= int_content(n).len(),
        int_value(int_content(n)) == n,
        int_content(n).len() >= 2 ==> !(int_content(n)[0] == 0 && int_content(n)[1] < 128) && !(
        int_content(n)[0] == 255 && int_content(n)[1] >= 128),
        int_content(n)[0] >= 128 <==> n < 0,
    decreases (if n >= 0 { n } else { -n - 1 }),
{
    if -128 <= n < 128 {
        assert(int_content(n) == seq![(n % 256) as u8]);
        assert(int_content(n).drop_last() =~= Seq::<u8>::empty());
        if n >= 0 {
            assert(n % 256 == n);
        } else {
            assert(n % 256 == n + 256);
        }
    } else {
        lemma_int_content(n / 256);
        let hi = int_content(n / 256);
        let ic = hi.push((n % 256) as u8);
        assert(int_content(n) == ic);
        assert(ic.drop_last() =~= hi);
        if ic.len() == 2 {
            // `hi` is a single octet for a quotient between -128 and 127.
            assert(hi[0] == (n / 256) % 256);
            if n >= 128 {
                if n < 256 {
                    assert(n / 256 == 0);
                    assert(n % 256 == n >= 128);
                }
            } else {
                assert(n <= -129);
                if n >= -256 {
                    assert(n / 256 == -1);
                    assert(n % 256 == n + 256 < 128);
                }
            }
        }
        if ic.len() >= 2 {
            assert(ic[0] == hi[0]);
            if ic.len() >= 3 {
                assert(ic[1] == hi[1]);
            } else {
                assert(ic[1] == n % 256);
            }
        }
        assert(int_value(ic) == int_value(hi) * 256 + (n % 256) as u8);
        assert((n / 256) * 256 + n % 256 == n);
        if n >= 128 {
            assert(n / 256 >= 0);
        } else {
            assert(n / 256 < 0);
        }
    }
}

/// `int_content` of an `i64` fits in `k` octets when the value fits in
/// `k` two's-complement octets.
pub proof fn lemma_int_content_len(n: int, k: nat)
    requires
        k >= 1,
        -128 * pow256((k - 1) as nat) <= n < 128 * pow256((k - 1) as nat),
    ensures
        int_content(n).len() <= k,
    decreases k,
{
    if -128 <= n < 128 {
    } else {
        assert(k >= 2) by {
            if k == 1 {
                assert(pow256(0nat) == 1);
            }
        }
        let p = pow256((k - 2) as nat);
        assert(pow256((k - 1) as nat) == 256 * p);
        assert(-128 * p <= n / 256 < 128 * p) by (nonlinear_arith)
            requires
                -128 * (256 * p) <= n < 128 * (256 * p),
                n / 256 == (n - n % 256) / 256,
                0 <= n % 256 < 256,
                p >= 1,
        ;
        lemma_int_content_len(n / 256, (k - 1) as nat);
    }
}

/// A well-formed time round-trips through its wire rendering.
pub proof fn lemma_time_from(t: GeneralizedTime)
    requires
        t.wf(),
    ensures
        time_from(time_bytes(t)) == Some(t),
        time_bytes(t).len() == 15,
{
    let yh = t.year as int / 100;
    let yl = t.year as int % 100;
    let s = time_bytes(t);
    assert(s =~= seq![
        (48 + yh / 10) as u8,
        (48 + yh % 10) as u8,
        (48 + yl / 10) as u8,
        (48 + yl % 10) as u8,
        (48 + t.month as int / 10) as u8,
        (48 + t.month as int % 10) as u8,
        (48 + t.day as int / 10) as u8,
        (48 + t.day as int % 10) as u8,
        (48 + t.hour as int / 10) as u8,
        (48 + t.hour as int % 10) as u8,
        (48 + t.minute as int / 10) as u8,
        (48 + t.minute as int % 10) as u8,
        (48 + t.second as int / 10) as u8,
        (48 + t.second as int % 10) as u8,
        90u8,
    ]);
    assert(0 <= yh <= 99 && 0 <= yl <= 99);
    assert(forall|i: int| 0 <= i < 14 ==> is_digit(#[trigger] s[i]));
    assert(digit2(s, 0) == yh && digit2(s, 2) == yl);
    assert(digit2(s, 4) == t.month as int);
    assert(digit2(s, 6) == t.day as int);
    assert(digit2(s, 8) == t.hour as int);
    assert(digit2(s, 10) == t.minute as int);
    assert(digit2(s, 12) == t.second as int);
    assert(yh * 100 + yl == t.year as int);
}

/// Concatenation distributes over `enc_list`.
pub proof fn lemma_enc_list_append(a: Seq<AsnValue>, b: Seq<AsnValue>)
    ensures
        enc_list(a + b) == enc_list(a) + enc_list(b),
    decreases a,
{
    if a.len() == 0 {
        assert(a + b =~= b);
        assert(enc_list(a) + enc_list(b) =~= enc_list(b));
    } else {
        lemma_enc_list_append(a.skip(1), b);
        assert((a + b).skip(1) =~= a.skip(1) + b);
        assert((a + b)[0] == a[0]);
        assert(enc(a[0]) + (enc_list(a.skip(1)) + enc_list(b)) =~= (enc(a[0]) + enc_list(
            a.skip(1),
        )) + enc_list(b));
    }
}

/// An element's encoding is no longer than the whole list's.
pub proof fn lemma_enc_list_elem(cs: Seq<AsnValue>, i: int)
    requires
        0 <= i < cs.len(),
    ensures
        enc(cs[i]).len() <= enc_list(cs).len(),
    decreases cs,
{
    if i > 0 {
        lemma_enc_list_elem(cs.skip(1), i - 1);
        assert(cs.skip(1)[i - 1] == cs[i]);
    }
}

/// Every encoding is at least two octets: a tag and a length.
pub proof fn lemma_enc_ge_2(v: AsnValue)
    ensures
        enc(v).len() >= 2,
        enc(v).len() >= 2 + content_of(v).len(),
        enc(v) == tlv(tag_of(v), content_of(v)),
{
}

/// The identifier octet an encoding starts with.
pub open spec fn tag_of(v: AsnValue) -> u8 {
    match v {
        AsnValue::Boolean(_) => 1,
        AsnValue::Integer(_) => 2,
        AsnValue::BitString(_, _) => 3,
        AsnValue::OctetString(_) => 4,
        AsnValue::Enumerated(_) => 10,
        AsnValue::Time(_) => 24,
        AsnValue::GeneralString(_) => 27,
        AsnValue::Sequence(_) => 48,
        AsnValue::ContextTag(n, _) => (160 + n) as u8,
        AsnValue::ApplicationTag(n, _) => (96 + n) as u8,
    }
}

/// The content octets of an encoding.
pub open spec fn content_of(v: AsnValue) -> Seq<u8> {
    match v {
        AsnValue::Boolean(b) => seq![if b { 255u8 } else { 0u8 }],
        AsnValue::Integer(n) => int_content(n as int),
        AsnValue::BitString(unused, data) => seq![unused] + data,
        AsnValue::OctetString(data) => data,
        AsnValue::Enumerated(n) => int_content(n as int),
        AsnValue::Time(t) => time_bytes(t),
        AsnValue::GeneralString(data) => data,
        AsnValue::Sequence(cs) => enc_list(cs),
        AsnValue::ContextTag(_, inner) => enc(*inner),
        AsnValue::ApplicationTag(_, inner) => enc(*inner),
    }
}

/// Reading the encoding of a well-formed tree from the front of any stream
/// returns the tree and consumes exactly the encoding.
pub proof fn lemma_dec_enc(v: AsnValue, rest: Seq<u8>)
    requires
        value_wf(v),
        enc(v).len() < 0x1_0000_0000_0000_0000,
    ensures
        dec(enc(v) + rest) == Some((v, enc(v).len())),
    decreases v, 0nat,
{
    let content = content_of(v);
    let tag = tag_of(v);
    lemma_enc_ge_2(v);
    let s = enc(v) + rest;
    assert(s[0] == tag);
    assert(s.skip(1) =~= len_bytes(content.len()) + (content + rest));
    lemma_len_bytes(content.len(), content + rest);
    let lsz = len_bytes(content.len()).len();
    let hdr = 1 + lsz;
    assert(dec_len(s.skip(1)) == Some((content.len(), lsz)));
    assert(s.len() == hdr + content.len() + rest.len());
    assert(s.subrange(hdr as int, hdr + content.len() as int) =~= content);
    let total = (hdr + content.len()) as nat;
    assert(total == enc(v).len());
    match v {
        AsnValue::Boolean(b) => {
            assert(content[0] != 0 <==> b);
            assert(dec_body(tag, content, total) == Some((v, total)));
        },
        AsnValue::Integer(n) => {
            lemma_int_content(n as int);
            assert(pow256(8nat) == 0x1_0000_0000_0000_0000) by {
                reveal_with_fuel(pow256, 9);
            }
            lemma_int_content_len(n as int, 8);
            assert(int_from(content) == Some(n as int));
            assert(dec_body(tag, content, total) == Some((v, total)));
        },
        AsnValue::Enumerated(n) => {
            lemma_int_content(n as int);
            assert(pow256(8nat) == 0x1_0000_0000_0000_0000) by {
                reveal_with_fuel(pow256, 9);
            }
            lemma_int_content_len(n as int, 8);
            assert(int_from(content) == Some(n as int));
            assert(dec_body(tag, content, total) == Some((v, total)));
        },
        AsnValue::BitString(unused, data) => {
            assert(content[0] == unused);
            assert(content.skip(1) =~= data);
            assert(dec_body(tag, content, total) == Some((v, total)));
        },
        AsnValue::OctetString(data) => {
            assert(dec_body(tag, content, total) == Some((v, total)));
        },
        AsnValue::Time(t) => {
            lemma_time_from(t);
            assert(dec_body(tag, content, total) == Some((v, total)));
        },
        AsnValue::GeneralString(data) => {
            assert(dec_body(tag, content, total) == Some((v, total)));
        },
        AsnValue::Sequence(cs) => {
            lemma_dec_list_enc(cs);
            assert(dec_body(tag, content, total) == Some((v, total)));
        },
        AsnValue::ContextTag(n, inner) => {
            lemma_dec_enc(*inner, Seq::empty());
            assert(enc(*inner) + Seq::<u8>::empty() =~= enc(*inner));
            assert(dec(content) == Some((*inner, content.len())));
            assert(160 <= tag <= 190);
            assert((tag - 160) as u8 == n);
            assert(dec_body(tag, content, total) matches Some((w, m)) && m == total && w =~~= v);
            assert(dec_body(tag, content, total) == Some((v, total)));
        },
        AsnValue::ApplicationTag(n, inner) => {
            lemma_dec_enc(*inner, Seq::empty());
            assert(enc(*inner) + Seq::<u8>::empty() =~= enc(*inner));
            assert(dec(content) == Some((*inner, content.len())));
            assert(96 <= tag <= 126);
            assert((tag - 96) as u8 == n);
            assert(dec_body(tag, content, total) matches Some((w, m)) && m == total && w =~~= v);
            assert(dec_body(tag, content, total) == Some((v, total)));
        },
    }
}

/// Reading the concatenated encodings of a list of well-formed trees
/// returns exactly that list.
pub proof fn lemma_dec_list_enc(cs: Seq<AsnValue>)
    requires
        forall|i: int| 0 <= i < cs.len() ==> value_wf(#[trigger] cs[i]),
        enc_list(cs).len() < 0x1_0000_0000_0000_0000,
    ensures
        dec_list(enc_list(cs)) == Some(cs),
    decreases cs, 1nat,
{
    if cs.len() == 0 {
        assert(dec_list(enc_list(cs)) == Some(Seq::<AsnValue>::empty()));
        assert(Seq::<AsnValue>::empty() =~= cs);
    } else {
        let s = enc_list(cs);
        let head = enc(cs[0]);
        let tail = enc_list(cs.skip(1));
        assert(s == head + tail);
        lemma_dec_enc(cs[0], tail);
        lemma_enc_ge_2(cs[0]);
        assert(dec(s) == Some((cs[0], head.len())));
        assert(s.skip(head.len() as int) =~= tail);
        assert(forall|i: int|
            0 <= i < cs.skip(1).len() ==> value_wf(#[trigger] cs.skip(1)[i]));
        lemma_dec_list_enc(cs.skip(1));
        assert(seq![cs[0]] + cs.skip(1) =~= cs);
    }
}

// ------------------------------------------------------------------
// The executable DER writer.
// ------------------------------------------------------------------

fn push_base256(n: u64, out: &mut Vec<u8>)
    ensures
        final(out)@ == old(out)@ + base256(n as nat),
    decreases n,
{
    if n < 256 {
        out.push(n as u8);
        assert(out@ =~= old(out)@ + base256(n as nat));
    } else {
        push_base256(n / 256, out);
        out.push((n % 256) as u8);
        assert(out@ =~= old(out)@ + base256(n as nat));
    }
}

/// Wrap content octets into a tag-length-value triple.
fn wrap_tlv(tag: u8, content: Vec<u8>) -> (r: Vec<u8>)
    ensures
        r@ == tlv(tag, content@),
{
    let ghost c0 = content@;
    let mut out: Vec<u8> = Vec::new();
    out.push(tag);
    let len = content.len();
    if len < 128 {
        out.push(len as u8);
    } else {
        proof {
            assert(pow256(8nat) == 0x1_0000_0000_0000_0000) by {
                reveal_with_fuel(pow256, 9);
            }
            lemma_base256(len as nat, 8);
        }
        let mut digits: Vec<u8> = Vec::new();
        push_base256(len as u64, &mut digits);
        out.push(128 + digits.len() as u8);
        out.append(&mut digits);
    }
    let mut c = content;
    out.append(&mut c);
    assert(out@ =~= tlv(tag, c0));
    out
}

fn push_int_content(n: i64, out: &mut Vec<u8>)
    ensures
        final(out)@ == old(out)@ + int_content(n as int),
    decreases (if n >= 0 { n as int } else { -(n as int) - 1 }),
{
    if -128 <= n && n < 128 {
        let b: u8 = if n >= 0 {
            n as u8
        } else {
            (n + 256) as u8
        };
        assert(b == (n as int % 256) as u8);
        out.push(b);
        assert(out@ =~= old(out)@ + int_content(n as int));
    } else {
        let q: i64 = if n >= 0 {
            n / 256
        } else {
            -1 - ((-1 - n) / 256)
        };
        assert(q == n as int / 256) by {
            if n < 0 {
                let m = -1 - n as int;
                assert(q * 256 <= n < q * 256 + 256) by (nonlinear_arith)
                    requires
                        m == -1 - n as int,
                        q == -1 - m / 256,
                        m >= 0,
                ;
                assert(n as int == 256 * (n as int / 256) + n as int % 256);
            }
        }
        push_int_content(q, out);
        let b: u8 = (n - q * 256) as u8;
        assert(b == (n as int % 256) as u8);
        out.push(b);
        assert(out@ =~= old(out)@ + int_content(n as int));
    }
}

fn push_two_digits(x: u16, out: &mut Vec<u8>)
    requires
        x <= 999,
    ensures
        final(out)@ == old(out)@ + two_digits(x as int),
{
    out.push(48 + (x / 10) as u8);
    out.push(48 + (x % 10) as u8);
    assert(out@ =~= old(out)@ + two_digits(x as int));
}

/// Encode one value tree as DER.
pub fn encode_value(v: &Asn1Value) -> (r: Vec<u8>)
    ensures
        r@ == enc(v@),
    decreases enc(v@).len(),
{
    match v {
        Asn1Value::Boolean(b) => {
            let mut c: Vec<u8> = Vec::new();
            c.push(if *b { 255 } else { 0 });
            let r = wrap_tlv(1, c);
            assert(r@ == enc(v@));
            r
        },
        Asn1Value::Integer(n) => {
            let mut c: Vec<u8> = Vec::new();
            push_int_content(*n, &mut c);
            wrap_tlv(2, c)
        },
        Asn1Value::BitString(unused, data) => {
            let mut c: Vec<u8> = Vec::new();
            c.push(*unused);
            c.extend_from_slice(data.as_slice());
            assert(c@ =~= seq![*unused] + data@);
            wrap_tlv(3, c)
        },
        Asn1Value::OctetString(data) => wrap_tlv(4, vstd::slice::slice_to_vec(data.as_slice())),
        Asn1Value::Enumerated(n) => {
            let mut c: Vec<u8> = Vec::new();
            push_int_content(*n, &mut c);
            wrap_tlv(10, c)
        },
        Asn1Value::Time(t) => {
            let mut c: Vec<u8> = Vec::new();
            push_two_digits(t.year / 100, &mut c);
            push_two_digits(t.year % 100, &mut c);
            push_two_digits(t.month as u16, &mut c);
            push_two_digits(t.day as u16, &mut c);
            push_two_digits(t.hour as u16, &mut c);
            push_two_digits(t.minute as u16, &mut c);
            push_two_digits(t.second as u16, &mut c);
            c.push(90);
            assert(c@ =~= time_bytes(*t));
            wrap_tlv(24, c)
        },
        Asn1Value::GeneralString(data) => wrap_tlv(
            27,
            vstd::slice::slice_to_vec(data.as_slice()),
        ),
        Asn1Value::Sequence(cs) => {
            let mut c: Vec<u8> = Vec::new();
            let mut i: usize = 0;
            proof {
                lemma_view_list(cs@);
                lemma_enc_ge_2(v@);
            }
            while i < cs.len()
                invariant
                    i <= cs.len(),
                    v@ == AsnValue::Sequence(view_list(cs@)),
                    enc(v@).len() >= 2 + enc_list(view_list(cs@)).len(),
                    c@ == enc_list(view_list(cs@).take(i as int)),
                    view_list(cs@).len() == cs@.len(),
                    forall|j: int| 0 <= j < cs@.len() ==> view_list(cs@)[j] == #[trigger] cs@[j]@,
                decreases cs.len() - i,
            {
                proof {
                    lemma_enc_list_elem(view_list(cs@), i as int);
                    lemma_enc_ge_2(v@);
                    assert(v@ == AsnValue::Sequence(view_list(cs@)));
                    assert(content_of(v@) == enc_list(view_list(cs@)));
                    assert(view_list(cs@)[i as int] == cs@[i as int]@);
                    assert(enc(cs@[i as int]@).len() < enc(v@).len());
                }
                let mut e = encode_value(&cs[i]);
                c.append(&mut e);
                proof {
                    let vl = view_list(cs@);
                    lemma_enc_list_append(vl.take(i as int), seq![vl[i as int]]);
                    assert(vl.take(i as int) + seq![vl[i as int]] =~= vl.take(i + 1));
                    reveal_with_fuel(enc_list, 3);
                    assert(seq![vl[i as int]].skip(1) =~= Seq::<AsnValue>::empty());
                    assert(enc_list(seq![vl[i as int]]) =~= enc(vl[i as int]));
                }
                i += 1;
            }
            assert(view_list(cs@).take(cs@.len() as int) =~= view_list(cs@));
            wrap_tlv(48, c)
        },
        Asn1Value::ContextTag(n, inner) => {
            proof {
                lemma_enc_ge_2(v@);
            }
            let c = encode_value(inner);
            wrap_tlv(#[verifier::truncate] ((160u16 + *n as u16) as u8), c)
        },
        Asn1Value::ApplicationTag(n, inner) => {
            proof {
                lemma_enc_ge_2(v@);
            }
            let c = encode_value(inner);
            wrap_tlv(#[verifier::truncate] ((96u16 + *n as u16) as u8), c)
        },
    }
}

// ------------------------------------------------------------------
// The executable BER reader.
// ------------------------------------------------------------------

/// Appending a digit multiplies the value by the base.
proof fn lemma_be_value_snoc(t: Seq<u8>, b: u8)
    ensures
        be_value(t.push(b)) == be_value(t) * 256 + b,
{
    assert(t.push(b).drop_last() =~= t);
    assert(t.push(b).last() == b);
}

/// A digit string's value fits in as many octets as it has.
proof fn lemma_be_value_bound(s: Seq<u8>)
    ensures
        be_value(s) < pow256(s.len()),
    decreases s.len(),
{
    reveal_with_fuel(pow256, 2);
    if s.len() > 0 {
        lemma_be_value_bound(s.drop_last());
        assert(pow256(s.len()) == 256 * pow256((s.len() - 1) as nat));
    }
}

/// Appending an octet to INTEGER content multiplies the value by 256.
proof fn lemma_int_value_snoc(t: Seq<u8>, b: u8)
    requires
        t.len() >= 1,
    ensures
        int_value(t.push(b)) == int_value(t) * 256 + b,
{
    assert(t.push(b).drop_last() =~= t);
    assert(t.push(b).last() == b);
}

/// INTEGER content of `k` octets holds a value of `k` two's-complement octets.
proof fn lemma_int_value_range(s: Seq<u8>)
    requires
        s.len() >= 1,
    ensures
        -128 * pow256((s.len() - 1) as nat) <= int_value(s) < 128 * pow256((s.len() - 1) as nat),
    decreases s.len(),
{
    reveal_with_fuel(pow256, 2);
    if s.len() > 1 {
        lemma_int_value_range(s.drop_last());
        lemma_int_value_snoc(s.drop_last(), s.last());
        assert(s.drop_last().push(s.last()) =~= s);
        assert(pow256((s.len() - 1) as nat) == 256 * pow256((s.len() - 2) as nat));
        let p = pow256((s.len() - 2) as nat) as int;
        let v = int_value(s.drop_last());
        assert(v * 256 >= -128 * p * 256 && v * 256 <= (128 * p - 1) * 256) by (nonlinear_arith)
            requires
                -128 * p <= v < 128 * p,
        ;
    }
}

fn parsing_error(message: &str) -> (e: KerlabError)
    ensures
        e.spec_kind() == KerlabErrorKind::Parsing,
{
    KerlabError::new(KerlabErrorKind::Parsing, message)
}

/// Read a definite length at `pos`, mirroring [`dec_len`].
fn parse_len(s: &[u8], pos: usize, end: usize) -> (r: Result<(u64, usize), KerlabError>)
    requires
        pos <= end <= s@.len(),
    ensures
        match r {
            Ok((clen, lsz)) => {
                &&& dec_len(s@.subrange(pos as int, end as int)) == Some(
                    (clen as nat, lsz as nat),
                )
                &&& 1 <= lsz <= 9
                &&& pos + lsz <= end
            },
            Err(e) => {
                &&& dec_len(s@.subrange(pos as int, end as int)) is None
                &&& e.spec_kind() == KerlabErrorKind::Parsing
            },
        },
{
    let ghost sub = s@.subrange(pos as int, end as int);
    if pos == end {
        return Err(parsing_error("truncated length"));
    }
    let b = *vstd::slice::slice_index_get(s, pos);
    assert(sub[0] == b);
    if b < 128 {
        Ok((b as u64, 1))
    } else {
        let m = (b - 128) as usize;
        if m == 0 || m > 8 || end - pos < 1 + m {
            return Err(parsing_error("bad length form"));
        }
        let mut acc: u64 = 0;
        let mut j: usize = 0;
        proof {
            assert(sub.subrange(1, 1) =~= Seq::<u8>::empty());
        }
        while j < m
            invariant
                j <= m,
                m <= 8,
                pos + 1 + m <= end <= s@.len(),
                sub == s@.subrange(pos as int, end as int),
                pos <= end,
                acc == be_value(sub.subrange(1, 1 + j as int)),
                acc < pow256(j as nat),
            decreases m - j,
        {
            let b2 = *vstd::slice::slice_index_get(s, pos + 1 + j);
            proof {
                reveal_with_fuel(pow256, 9);
                assert(sub.subrange(1, 1 + j as int).push(sub[1 + j as int]) =~= sub.subrange(
                    1,
                    2 + j as int,
                ));
                lemma_be_value_snoc(sub.subrange(1, 1 + j as int), sub[1 + j as int]);
                assert(sub[1 + j as int] == s@[pos + 1 + j as int]);
                assert(pow256(j as nat) * 256 == pow256((j + 1) as nat));
                assert(acc * 256 + b2 < pow256(j as nat) * 256) by (nonlinear_arith)
                    requires
                        acc < pow256(j as nat),
                        b2 < 256,
                ;
            }
            acc = acc * 256 + b2 as u64;
            j += 1;
        }
        assert(sub.subrange(1, 1 + m as int) =~= sub.subrange(1, 1 + j as int));
        Ok((acc, 1 + m))
    }
}

/// Read minimal two's-complement INTEGER content, mirroring [`int_from`].
fn parse_int_content(s: &[u8], cpos: usize, cend: usize) -> (r: Result<i64, KerlabError>)
    requires
        cpos <= cend <= s@.len(),
    ensures
        match r {
            Ok(n) => int_from(s@.subrange(cpos as int, cend as int)) == Some(n as int),
            Err(e) => {
                &&& int_from(s@.subrange(cpos as int, cend as int)) is None
                &&& e.spec_kind() == KerlabErrorKind::Parsing
            },
        },
{
    let ghost c = s@.subrange(cpos as int, cend as int);
    let len = cend - cpos;
    if len < 1 || len > 8 {
        return Err(parsing_error("bad integer length"));
    }
    let b0 = *vstd::slice::slice_index_get(s, cpos);
    assert(c[0] == b0);
    if len >= 2 {
        let b1 = *vstd::slice::slice_index_get(s, cpos + 1);
        assert(c[1] == b1);
        if (b0 == 0 && b1 < 128) || (b0 == 255 && b1 >= 128) {
            return Err(parsing_error("non-minimal integer"));
        }
    }
    let mut acc: i64 = if b0 < 128 {
        b0 as i64
    } else {
        b0 as i64 - 256
    };
    proof {
        assert(c.subrange(0, 1) =~= seq![c[0]]);
        assert(int_value(c.subrange(0, 1)) == acc);
    }
    let mut j: usize = 1;
    while j < len
        invariant
            1 <= j <= len,
            len == cend - cpos,
            cpos <= cend <= s@.len(),
            c == s@.subrange(cpos as int, cend as int),
            len <= 8,
            acc == int_value(c.subrange(0, j as int)),
        decreases len - j,
    {
        let b = *vstd::slice::slice_index_get(s, cpos + j);
        proof {
            let pre = c.subrange(0, j as int);
            assert(pre.push(c[j as int]) =~= c.subrange(0, j + 1 as int));
            lemma_int_value_snoc(pre, c[j as int]);
            assert(c[j as int] == s@[cpos + j as int]);
            lemma_int_value_range(pre);
            reveal_with_fuel(pow256, 9);
            let p = pow256((j - 1) as nat) as int;
            assert(-128 * p * 256 <= acc * 256 <= (128 * p - 1) * 256) by (nonlinear_arith)
                requires
                    -128 * p <= acc < 128 * p,
            ;
            assert(pow256(7nat) == 0x100_0000_0000_0000);
            assert(p <= 0x100_0000_0000_0000);
        }
        acc = acc * 256 + b as i64;
        j += 1;
    }
    assert(c.subrange(0, len as int) =~= c);
    Ok(acc)
}

/// Read `YYYYMMDDHHMMSSZ` content, mirroring [`time_from`].
fn parse_time_content(s: &[u8], cpos: usize, cend: usize) -> (r: Result<
    GeneralizedTime,
    KerlabError,
>)
    requires
        cpos <= cend <= s@.len(),
    ensures
        match r {
            Ok(t) => time_from(s@.subrange(cpos as int, cend as int)) == Some(t),
            Err(e) => {
                &&& time_from(s@.subrange(cpos as int, cend as int)) is None
                &&& e.spec_kind() == KerlabErrorKind::Parsing
            },
        },
{
    let ghost c = s@.subrange(cpos as int, cend as int);
    if cend - cpos != 15 {
        return Err(parsing_error("bad time length"));
    }
    let mut j: usize = 0;
    while j < 14
        invariant
            j <= 14,
            cpos + 15 == cend,
            cend <= s@.len(),
            c == s@.subrange(cpos as int, cend as int),
            forall|i: int| 0 <= i < j ==> is_digit(#[trigger] c[i]),
        decreases 14 - j,
    {
        let b = *vstd::slice::slice_index_get(s, cpos + j);
        assert(c[j as int] == b);
        if b < 48 || b > 57 {
            return Err(parsing_error("bad time digit"));
        }
        j += 1;
    }
    let last = *vstd::slice::slice_index_get(s, cpos + 14);
    assert(c[14] == last);
    if last != 90 {
        return Err(parsing_error("bad time suffix"));
    }
    let b0 = *vstd::slice::slice_index_get(s, cpos);
    let b1 = *vstd::slice::slice_index_get(s, cpos + 1);
    let b2 = *vstd::slice::slice_index_get(s, cpos + 2);
    let b3 = *vstd::slice::slice_index_get(s, cpos + 3);
    let b4 = *vstd::slice::slice_index_get(s, cpos + 4);
    let b5 = *vstd::slice::slice_index_get(s, cpos + 5);
    let b6 = *vstd::slice::slice_index_get(s, cpos + 6);
    let b7 = *vstd::slice::slice_index_get(s, cpos + 7);
    let b8 = *vstd::slice::slice_index_get(s, cpos + 8);
    let b9 = *vstd::slice::slice_index_get(s, cpos + 9);
    let b10 = *vstd::slice::slice_index_get(s, cpos + 10);
    let b11 = *vstd::slice::slice_index_get(s, cpos + 11);
    let b12 = *vstd::slice::slice_index_get(s, cpos + 12);
    let b13 = *vstd::slice::slice_index_get(s, cpos + 13);
    let year: u16 = ((b0 - 48) as u16 * 10 + (b1 - 48) as u16) * 100 + (b2 - 48) as u16 * 10 + (b3
        - 48) as u16;
    let month: u8 = (b4 - 48) * 10 + (b5 - 48);
    let day: u8 = (b6 - 48) * 10 + (b7 - 48);
    let hour: u8 = (b8 - 48) * 10 + (b9 - 48);
    let minute: u8 = (b10 - 48) * 10 + (b11 - 48);
    let second: u8 = (b12 - 48) * 10 + (b13 - 48);
    let t = GeneralizedTime { year, month, day, hour, minute, second };
    assert(year == digit2(c, 0) * 100 + digit2(c, 2));
    assert(month == digit2(c, 4) && day == digit2(c, 6) && hour == digit2(c, 8) && minute
        == digit2(c, 10) && second == digit2(c, 12));
    if month < 1 || month > 12 || day < 1 || day > 31 || hour > 23 || minute > 59 || second > 59 {
        return Err(parsing_error("time field out of range"));
    }
    Ok(t)
}

/// Read one value from `s[pos..end]`, mirroring [`dec`]: on success the
/// tree plus the position just past its encoding.
#[verifier::rlimit(100)]
pub fn parse_value(s: &[u8], pos: usize, end: usize) -> (r: Result<
    (Asn1Value, usize),
    KerlabError,
>)
    requires
        pos <= end <= s@.len(),
    ensures
        match r {
            Ok((v, next)) => {
                &&& pos < next <= end
                &&& dec(s@.subrange(pos as int, end as int)) == Some(
                    (v@, (next - pos) as nat),
                )
            },
            Err(e) => {
                &&& dec(s@.subrange(pos as int, end as int)) is None
                &&& e.spec_kind() == KerlabErrorKind::Parsing
            },
        },
    decreases end - pos, 0int,
{
    let ghost sub = s@.subrange(pos as int, end as int);
    if end - pos < 2 {
        return Err(parsing_error("truncated value"));
    }
    let tag = *vstd::slice::slice_index_get(s, pos);
    assert(sub[0] == tag);
    assert(sub.skip(1) =~= s@.subrange(pos + 1 as int, end as int));
    let (clen64, lsz) = match parse_len(s, pos + 1, end) {
        Ok(x) => x,
        Err(e) => {
            return Err(e);
        },
    };
    let hdr = 1 + lsz;
    let remaining = end - pos - hdr;
    if clen64 > remaining as u64 {
        return Err(parsing_error("content past end of input"));
    }
    let clen = clen64 as usize;
    let cpos = pos + hdr;
    let cend = cpos + clen;
    let total = hdr + clen;
    let ghost content = sub.subrange(hdr as int, hdr + clen as int);
    proof {
        assert(content =~= s@.subrange(cpos as int, cend as int));
        assert(dec(sub) == dec_body(tag, content, total as nat));
    }
    if tag == 1 {
        if clen != 1 {
            return Err(parsing_error("bad boolean length"));
        }
        let b = *vstd::slice::slice_index_get(s, cpos);
        assert(content[0] == b);
        Ok((Asn1Value::Boolean(b != 0), pos + total))
    } else if tag == 2 || tag == 10 {
        let n = match parse_int_content(s, cpos, cend) {
            Ok(n) => n,
            Err(e) => {
                return Err(e);
            },
        };
        if tag == 2 {
            Ok((Asn1Value::Integer(n), pos + total))
        } else {
            Ok((Asn1Value::Enumerated(n), pos + total))
        }
    } else if tag == 3 {
        if clen < 1 {
            return Err(parsing_error("empty bit string"));
        }
        let unused = *vstd::slice::slice_index_get(s, cpos);
        assert(content[0] == unused);
        if unused > 7 {
            return Err(parsing_error("bad unused bit count"));
        }
        let data = vstd::slice::slice_to_vec(vstd::slice::slice_subrange(s, cpos + 1, cend));
        assert(data@ =~= content.skip(1));
        Ok((Asn1Value::BitString(unused, data), pos + total))
    } else if tag == 4 {
        let data = vstd::slice::slice_to_vec(vstd::slice::slice_subrange(s, cpos, cend));
        assert(data@ =~= content);
        Ok((Asn1Value::OctetString(data), pos + total))
    } else if tag == 24 {
        let t = match parse_time_content(s, cpos, cend) {
            Ok(t) => t,
            Err(e) => {
                return Err(e);
            },
        };
        Ok((Asn1Value::Time(t), pos + total))
    } else if tag == 27 {
        let mut j: usize = 0;
        while j < clen
            invariant
                j <= clen,
                pos <= cpos,
                cpos + clen == cend <= s@.len(),
                content == s@.subrange(cpos as int, cend as int),
                sub == s@.subrange(pos as int, end as int),
                pos <= end <= s@.len(),
                tag == 27,
                dec(sub) == dec_body(tag, content, total as nat),
                forall|i: int| 0 <= i < j ==> #[trigger] content[i] < 128,
            decreases clen - j,
        {
            let b = *vstd::slice::slice_index_get(s, cpos + j);
            assert(content[j as int] == b);
            if b >= 128 {
                assert(!(forall|i: int| 0 <= i < content.len() ==> #[trigger] content[i] < 128));
                return Err(parsing_error("non-ASCII character in string"));
            }
            j += 1;
        }
        let data = vstd::slice::slice_to_vec(vstd::slice::slice_subrange(s, cpos, cend));
        assert(data@ =~= content);
        Ok((Asn1Value::GeneralString(data), pos + total))
    } else if tag == 48 {
        let vs = match parse_list(s, cpos, cend) {
            Ok(vs) => vs,
            Err(e) => {
                return Err(e);
            },
        };
        Ok((Asn1Value::Sequence(vs), pos + total))
    } else if 160 <= tag && tag <= 190 {
        let (inner, next2) = match parse_value(s, cpos, cend) {
            Ok(x) => x,
            Err(e) => {
                return Err(e);
            },
        };
        if next2 != cend {
            return Err(parsing_error("trailing octets inside tag"));
        }
        Ok((Asn1Value::ContextTag(tag - 160, Box::new(inner)), pos + total))
    } else if 96 <= tag && tag <= 126 {
        let (inner, next2) = match parse_value(s, cpos, cend) {
            Ok(x) => x,
            Err(e) => {
                return Err(e);
            },
        };
        if next2 != cend {
            return Err(parsing_error("trailing octets inside tag"));
        }
        Ok((Asn1Value::ApplicationTag(tag - 96, Box::new(inner)), pos + total))
    } else {
        Err(parsing_error("unsupported tag"))
    }
}

/// Read values until `end`, mirroring [`dec_list`].
pub fn parse_list(s: &[u8], pos: usize, end: usize) -> (r: Result<Vec<Asn1Value>, KerlabError>)
    requires
        pos <= end <= s@.len(),
    ensures
        match r {
            Ok(vs) => dec_list(s@.subrange(pos as int, end as int)) == Some(view_list(vs@)),
            Err(e) => {
                &&& dec_list(s@.subrange(pos as int, end as int)) is None
                &&& e.spec_kind() == KerlabErrorKind::Parsing
            },
        },
    decreases end - pos, 1int,
{
    let ghost pos0 = pos as int;
    let mut acc: Vec<Asn1Value> = Vec::new();
    let mut cur = pos;
    proof {
        assert(view_list(acc@) =~= Seq::<AsnValue>::empty());
        assert(Seq::<AsnValue>::empty() + dec_list(s@.subrange(pos0, end as int)).unwrap()
            =~= dec_list(s@.subrange(pos0, end as int)).unwrap());
    }
    while cur < end
        invariant
            pos0 == pos as int,
            pos <= cur <= end <= s@.len(),
            (dec_list(s@.subrange(cur as int, end as int)) matches Some(rest) ==> dec_list(
                s@.subrange(pos0, end as int),
            ) == Some(view_list(acc@) + rest)),
            (dec_list(s@.subrange(cur as int, end as int)) is None ==> dec_list(
                s@.subrange(pos0, end as int),
            ) is None),
        decreases end - cur,
    {
        let ghost tail = s@.subrange(cur as int, end as int);
        let (v, next) = match parse_value(s, cur, end) {
            Ok(x) => x,
            Err(e) => {
                return Err(e);
            },
        };
        proof {
            assert(tail.skip((next - cur) as int) =~= s@.subrange(next as int, end as int));
            let n = (next - cur) as nat;
            assert(dec(tail) == Some((v@, n)));
            assert(1 <= n <= tail.len());
            assert(acc@.push(v).drop_last() =~= acc@);
            assert(view_list(acc@.push(v)) == view_list(acc@).push(v@));
            match dec_list(s@.subrange(next as int, end as int)) {
                Some(rest2) => {
                    assert(dec_list(tail) == Some(seq![v@] + rest2));
                    assert(view_list(acc@) + (seq![v@] + rest2) =~= view_list(acc@).push(v@)
                        + rest2);
                },
                None => {},
            }
        }
        acc.push(v);
        cur = next;
    }
    proof {
        assert(s@.subrange(cur as int, end as int) =~= Seq::<u8>::empty());
        assert(dec_list(Seq::<u8>::empty()) == Some(Seq::<AsnValue>::empty()));
        assert(view_list(acc@) + Seq::<AsnValue>::empty() =~= view_list(acc@));
    }
    Ok(acc)
}

/// Tag layout: the first octet of an `[APPLICATION n]` encoding is
/// `0x60 | n` for the constructed application tags up to 30.
pub proof fn lemma_application_tag_layout(n: u8, v: AsnValue)
    requires
        n <= 30,
    ensures
        enc(AsnValue::ApplicationTag(n, Box::new(v)))[0] == (0x60u8 | n),
{
    assert((0x60u8 | n) == (96 + n) as u8) by (bit_vector)
        requires
            n <= 30,
    ;
}

/// More digits for a larger number.
pub proof fn lemma_base256_monotone(a: nat, b: nat)
    requires
        a <= b,
    ensures
        base256(a).len() <= base256(b).len(),
    decreases b,
{
    if b >= 256 && a >= 256 {
        assert(a / 256 <= b / 256) by (nonlinear_arith)
            requires
                a <= b,
        ;
        assert(b / 256 < b) by (nonlinear_arith)
            requires
                b >= 256,
        ;
        lemma_base256_monotone(a / 256, b / 256);
    }
}

/// A longer content never takes fewer length octets.
pub proof fn lemma_len_bytes_monotone(a: nat, b: nat)
    requires
        a <= b,
    ensures
        len_bytes(a).len() <= len_bytes(b).len(),
{
    if a >= 128 && b >= 128 {
        lemma_base256_monotone(a, b);
    } else if a < 128 && b >= 128 {
        assert(len_bytes(b).len() >= 2) by {
            lemma_base256_monotone(0, b);
        }
    }
}

/// A longer content makes a longer tag-length-value triple.
pub proof fn lemma_tlv_len_monotone(tag: u8, c1: Seq<u8>, c2: Seq<u8>)
    requires
        c1.len() < c2.len(),
    ensures
        tlv(tag, c1).len() < tlv(tag, c2).len(),
{
    lemma_len_bytes_monotone(c1.len(), c2.len());
}

} // verus!