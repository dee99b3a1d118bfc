//! The RC4-HMAC encryption of RFC 4757: the RC4 state machine (verified in
//! full), the HMAC-MD5 primitive behind a trusted wrapper, and the envelope
//! that combines them with a random confounder and a keyed checksum.

use vstd::prelude::*;

verus! {

use crate::encryption::{EType, KeyUsage};
use crate::error::{KerlabError, KerlabErrorKind};
use crate::rnd::random;

// ------------------------------------------------------------------
// HMAC-MD5.
// ------------------------------------------------------------------

/// What HMAC-MD5 returns: a pure function of the key and the data.
pub uninterp spec fn hmac_md5_of(key: Seq<u8>, data: Seq<u8>) -> Seq<u8>;

/// Relies on `hmac::Hmac` over `md5::Md5`: the tag is a function of key and
/// data alone, 16 bytes long (the MD5 output size), and any key length is
/// accepted.
#[verifier::external_body]
fn hmac_md5_digest(key: &[u8], data: &[u8]) -> (r: Vec<u8>)
    ensures
        r@ == hmac_md5_of(key@, data@),
        r@.len() == 16,
{
    let mut mac = <hmac::Hmac<md5::Md5> as hmac::KeyInit>::new_from_slice(key).expect(
        "HMAC accepts keys of any length",
    );
    hmac::Mac::update(&mut mac, data);
    hmac::Mac::finalize(mac).into_bytes().to_vec()
}

/// The HMAC-MD5 tag, padded to its documented 16-byte length so that
/// specifications can split buffers at fixed offsets.
pub open spec fn hmac16(key: Seq<u8>, data: Seq<u8>) -> Seq<u8> {
    if hmac_md5_of(key, data).len() == 16 {
        hmac_md5_of(key, data)
    } else {
        Seq::new(16, |i: int| 0u8)
    }
}

/// Compute the HMAC-MD5 tag of `data` under `key`.
pub fn hmac_md5(key: &[u8], data: &[u8]) -> (r: Vec<u8>)
    ensures
        r@ == hmac16(key@, data@),
        r@.len() == 16,
{
    hmac_md5_digest(key, data)
}

// ------------------------------------------------------------------
// The RC4 state machine.
// ------------------------------------------------------------------

/// An RC4 state: the two indices plus the 256-byte permutation.
pub struct Rc4State {
    pub i: u8,
    pub j: u8,
    pub state: Seq<u8>,
}

/// One key-scheduling step at index `i`.
pub open spec fn ksa_step(key: Seq<u8>, s: Seq<u8>, j: u8, i: int) -> (Seq<u8>, u8) {
    let j2 = ((j + s[i] + key[i % (key.len() as int)]) % 256) as u8;
    (s.update(i, s[j2 as int]).update(j2 as int, s[i]), j2)
}

/// Run the key schedule from index `i` to the end.
pub open spec fn ksa_from(key: Seq<u8>, s: Seq<u8>, j: u8, i: int) -> Seq<u8>
    decreases 256 - i,
{
    if i < 0 || i >= 256 {
        s
    } else {
        let (s2, j2) = ksa_step(key, s, j, i);
        ksa_from(key, s2, j2, i + 1)
    }
}

/// The state after keying RC4: the identity permutation mixed by the key.
pub open spec fn rc4_init(key: Seq<u8>) -> Rc4State {
    Rc4State { i: 0, j: 0, state: ksa_from(key, Seq::new(256, |k: int| k as u8), 0, 0) }
}

/// One keystream step: advance the indices, swap, output.
pub open spec fn rc4_next(st: Rc4State) -> (Rc4State, u8) {
    let i2 = ((st.i + 1) % 256) as u8;
    let j2 = ((st.j + st.state[i2 as int]) % 256) as u8;
    let s2 = st.state.update(i2 as int, st.state[j2 as int]).update(j2 as int, st.state[i2 as int]);
    let k = s2[((s2[i2 as int] + s2[j2 as int]) % 256) as int];
    (Rc4State { i: i2, j: j2, state: s2 }, k)
}

/// Process a buffer: XOR it against the keystream, advancing the state.
pub open spec fn rc4_process(st: Rc4State, input: Seq<u8>) -> (Rc4State, Seq<u8>)
    decreases input.len(),
{
    if input.len() == 0 {
        (st, Seq::empty())
    } else {
        let (st2, k) = rc4_next(st);
        let (st3, rest) = rc4_process(st2, input.skip(1));
        (st3, seq![input[0] ^ k] + rest)
    }
}

/// The keystream does not depend on the data, so XOR-ing twice under the
/// same starting state gives the data back.
pub proof fn lemma_rc4_involution(st: Rc4State, input: Seq<u8>)
    ensures
        rc4_process(st, rc4_process(st, input).1).1 == input,
    decreases input.len(),
{
    let (st2, k) = rc4_next(st);
    let cipher = rc4_process(st, input).1;
    if input.len() == 0 {
        assert(rc4_process(st, cipher).1 =~= input);
    } else {
        lemma_rc4_involution(st2, input.skip(1));
        assert(cipher == seq![input[0] ^ k] + rc4_process(st2, input.skip(1)).1);
        assert(cipher[0] == input[0] ^ k);
        assert(cipher.skip(1) =~= rc4_process(st2, input.skip(1)).1);
        let b0 = input[0];
        assert((b0 ^ k) ^ k == b0) by (bit_vector);
        assert(rc4_process(st, cipher).1 =~= input);
    }
}

/// The RC4 cipher, stepping the standard KSA and PRGA.
pub struct Rc4 {
    i: u8,
    j: u8,
    state: Vec<u8>,
}

impl Rc4 {
    /// The abstract state this value holds.
    pub closed spec fn model(&self) -> Rc4State {
        Rc4State { i: self.i, j: self.j, state: self.state@ }
    }

    /// The permutation always holds 256 bytes.
    pub closed spec fn wf(&self) -> bool {
        self.state@.len() == 256
    }

    /// Key the cipher: seed the identity permutation with the key bytes.
    pub fn new(key: &[u8]) -> (r: Rc4)
        requires
            1 <= key@.len() <= 256,
        ensures
            r.wf(),
            r.model() == rc4_init(key@),
    {
        let mut state: Vec<u8> = Vec::new();
        let mut k: usize = 0;
        while k < 256
            invariant
                k <= 256,
                state@ =~= Seq::new(k as nat, |t: int| t as u8),
            decreases 256 - k,
        {
            state.push(k as u8);
            k += 1;
        }
        assert(state@ =~= Seq::new(256, |t: int| t as u8));
        let ghost s0 = state@;
        let mut j: u8 = 0;
        let mut i: usize = 0;
        while i < 256
            invariant
                i <= 256,
                key@.len() >= 1,
                key@.len() <= 256,
                state@.len() == 256,
                ksa_from(key@, s0, 0, 0) == ksa_from(key@, state@, j, i as int),
            decreases 256 - i,
        {
            let j2 = (j as usize + state[i] as usize + key[i % key.len()] as usize) % 256;
            proof {
                assert((j + state@[i as int] + key@[(i as int) % (key@.len() as int)]) % 256
                    == j2);
            }
            let a = state[i];
            let b = state[j2];
            state.set(i, b);
            state.set(j2, a);
            j = j2 as u8;
            i += 1;
        }
        assert(ksa_from(key@, state@, j, 256) == state@);
        Rc4 { i: 0, j: 0, state }
    }

    /// Advance the generator by one step and return the keystream byte.
    fn next(&mut self) -> (k: u8)
        requires
            old(self).wf(),
        ensures
            final(self).wf(),
            (final(self).model(), k) == rc4_next(old(self).model()),
    {
        self.i = ((self.i as usize + 1) % 256) as u8;
        self.j = ((self.j as usize + self.state[self.i as usize] as usize) % 256) as u8;
        let a = self.state[self.i as usize];
        let b = self.state[self.j as usize];
        self.state.set(self.i as usize, b);
        self.state.set(self.j as usize, a);
        let k = self.state[(self.state[self.i as usize] as usize + self.state[self.j as usize]
            as usize) % 256];
        k
    }

    /// XOR the input against the keystream.
    pub fn process(&mut self, input: &[u8]) -> (r: Vec<u8>)
        requires
            old(self).wf(),
        ensures
            final(self).wf(),
            (final(self).model(), r@) == rc4_process(old(self).model(), input@),
    {
        let ghost st0 = self.model();
        let mut out: Vec<u8> = Vec::new();
        let mut b: usize = 0;
        proof {
            assert(input@.skip(0) =~= input@);
            assert(Seq::<u8>::empty() + rc4_process(st0, input@).1 =~= rc4_process(
                st0,
                input@,
            ).1);
        }
        while b < input.len()
            invariant
                b <= input@.len(),
                self.wf(),
                rc4_process(st0, input@).0 == rc4_process(self.model(), input@.skip(b as int)).0,
                rc4_process(st0, input@).1 == out@ + rc4_process(
                    self.model(),
                    input@.skip(b as int),
                ).1,
            decreases input@.len() - b,
        {
            let ghost st_before = self.model();
            let k = self.next();
            let byte = input[b] ^ k;
            proof {
                let tail = input@.skip(b as int);
                assert(tail[0] == input@[b as int]);
                assert(tail.skip(1) =~= input@.skip(b + 1));
                assert(rc4_process(st_before, tail).1 == seq![tail[0] ^ k] + rc4_process(
                    self.model(),
                    tail.skip(1),
                ).1);
                assert(out@.push(byte) + rc4_process(self.model(), input@.skip(b + 1)).1
                    =~= out@ + rc4_process(st_before, tail).1);
            }
            out.push(byte);
            b += 1;
        }
        proof {
            assert(input@.skip(input@.len() as int) =~= Seq::<u8>::empty());
            assert(out@ + Seq::<u8>::empty() =~= out@);
        }
        out
    }
}

// ------------------------------------------------------------------
// The RC4-HMAC envelope (RFC 4757).
// ------------------------------------------------------------------

/// The little-endian bytes of a 32-bit integer.
pub open spec fn le32(u: u32) -> Seq<u8> {
    seq![
        (u % 256) as u8,
        ((u / 256) % 256) as u8,
        ((u / 0x1_0000) % 256) as u8,
        ((u / 0x100_0000) % 256) as u8,
    ]
}

/// Write the little-endian bytes of a 32-bit integer.
pub fn le32_bytes(u: u32) -> (r: Vec<u8>)
    ensures
        r@ == le32(u),
{
    let mut out: Vec<u8> = Vec::new();
    out.push((u % 256) as u8);
    out.push(((u / 256) % 256) as u8);
    out.push(((u / 0x1_0000) % 256) as u8);
    out.push(((u / 0x100_0000) % 256) as u8);
    assert(out@ =~= le32(u));
    out
}

/// The per-usage key `K1 = HMAC-MD5(K, LE32(usage))` of RFC 4757; `K2`
/// equals `K1` for this encryption type.
pub open spec fn rc4_k1(key: Seq<u8>, usage: u32) -> Seq<u8> {
    hmac16(key, le32(usage))
}

/// The RC4-HMAC sealing of `confounder || plaintext`: the keyed checksum
/// followed by the RC4 encryption under `K3 = HMAC-MD5(K1, checksum)`.
pub open spec fn rc4hmac_seal(key: Seq<u8>, usage: u32, conf: Seq<u8>, pt: Seq<u8>) -> Seq<u8> {
    let k1 = rc4_k1(key, usage);
    let edata = conf + pt;
    let checksum = hmac16(k1, edata);
    let k3 = hmac16(k1, checksum);
    checksum + rc4_process(rc4_init(k3), edata).1
}

/// The RC4-HMAC opening of a blob: split the 16-byte checksum, decrypt the
/// rest, verify the checksum, and drop the 8-byte confounder. `None` is a
/// checksum mismatch or a blob shorter than 24 bytes.
pub open spec fn rc4hmac_open(key: Seq<u8>, usage: u32, blob: Seq<u8>) -> Option<Seq<u8>> {
    if blob.len() < 24 {
        None
    } else {
        let k1 = rc4_k1(key, usage);
        let checksum = blob.take(16);
        let k3 = hmac16(k1, checksum);
        let edata = rc4_process(rc4_init(k3), blob.skip(16)).1;
        if hmac16(k1, edata) == checksum {
            Some(edata.skip(8))
        } else {
            None
        }
    }
}

/// Opening a sealed blob under the same key and usage yields the plaintext.
pub proof fn lemma_rc4hmac_round_trip(key: Seq<u8>, usage: u32, conf: Seq<u8>, pt: Seq<u8>)
    requires
        conf.len() == 8,
    ensures
        rc4hmac_open(key, usage, rc4hmac_seal(key, usage, conf, pt)) == Some(pt),
{
    let k1 = rc4_k1(key, usage);
    let edata = conf + pt;
    let checksum = hmac16(k1, edata);
    let k3 = hmac16(k1, checksum);
    let cipher = rc4_process(rc4_init(k3), edata).1;
    let blob = rc4hmac_seal(key, usage, conf, pt);
    lemma_rc4_involution(rc4_init(k3), edata);
    assert(rc4_process(rc4_init(k3), edata).1.len() == edata.len()) by {
        lemma_rc4_process_len(rc4_init(k3), edata);
    }
    assert(blob.len() == 16 + edata.len() >= 24);
    assert(blob.take(16) =~= checksum);
    assert(blob.skip(16) =~= cipher);
    assert(rc4_process(rc4_init(k3), cipher).1 == edata);
    assert(edata.skip(8) =~= pt);
}

/// Processing keeps the length.
pub proof fn lemma_rc4_process_len(st: Rc4State, input: Seq<u8>)
    ensures
        rc4_process(st, input).1.len() == input.len(),
    decreases input.len(),
{
    if input.len() > 0 {
        lemma_rc4_process_len(rc4_next(st).0, input.skip(1));
    }
}

/// The RC4-HMAC cipher keyed for one usage.
pub struct Rc4Hmac {
    key: Vec<u8>,
    usage: KeyUsage,
}

impl Rc4Hmac {
    /// The key bytes this cipher holds.
    pub closed spec fn spec_key(&self) -> Seq<u8> {
        self.key@
    }

    /// The key usage this cipher is bound to.
    pub closed spec fn spec_usage(&self) -> KeyUsage {
        self.usage
    }

    /// Key the cipher for one usage.
    pub fn new(key: Vec<u8>, usage: KeyUsage) -> (r: Self)
        ensures
            r.spec_key() == key@,
            r.spec_usage() == usage,
    {
        Self { key, usage }
    }

    /// The encryption type this cipher implements.
    pub fn etype(&self) -> (r: EType)
        ensures
            r == EType::Rc4Hmac,
    {
        EType::Rc4Hmac
    }

    /// Seal a plaintext: draw a fresh 8-byte confounder and apply the
    /// RFC 4757 envelope to it.
    pub fn encrypt(&mut self, data: &[u8]) -> (r: Vec<u8>)
        ensures
            exists|conf: Seq<u8>|
                conf.len() == 8 && r@ == rc4hmac_seal(
                    old(self).spec_key(),
                    old(self).spec_usage().spec_value(),
                    conf,
                    data@,
                ),
            r@.len() == data@.len() + 24,
            final(self).spec_key() == old(self).spec_key(),
            final(self).spec_usage() == old(self).spec_usage(),
    {
        let conf = random(8);
        let ghost confv = conf@;
        let mut edata = conf;
        edata.extend_from_slice(data);
        assert(edata@ =~= confv + data@);

        let usage_bytes = le32_bytes(self.usage.value());
        let k1 = hmac_md5(self.key.as_slice(), usage_bytes.as_slice());
        let checksum = hmac_md5(k1.as_slice(), edata.as_slice());
        let k3 = hmac_md5(k1.as_slice(), checksum.as_slice());

        let mut rc4 = Rc4::new(k3.as_slice());
        let cipher = rc4.process(edata.as_slice());
        proof {
            lemma_rc4_process_len(rc4_init(k3@), edata@);
        }
        let mut out = checksum;
        let mut c = cipher;
        out.append(&mut c);
        proof {
            let u = old(self).spec_usage().spec_value();
            assert(out@ =~= rc4hmac_seal(old(self).spec_key(), u, confv, data@));
        }
        out
    }

    /// Open a sealed blob: decrypt, verify the keyed checksum, and strip
    /// the confounder. A blob the checksum does not match — or one shorter
    /// than the 24 bytes of checksum plus confounder — fails with a
    /// `Kerberos` error.
    pub fn decrypt(&mut self, data: &[u8]) -> (r: Result<Vec<u8>, KerlabError>)
        ensures
            match r {
                Ok(p) => rc4hmac_open(
                    old(self).spec_key(),
                    old(self).spec_usage().spec_value(),
                    data@,
                ) == Some(p@),
                Err(e) => rc4hmac_open(
                    old(self).spec_key(),
                    old(self).spec_usage().spec_value(),
                    data@,
                ) is None && e.spec_kind() == KerlabErrorKind::Kerberos,
            },
            final(self).spec_key() == old(self).spec_key(),
            final(self).spec_usage() == old(self).spec_usage(),
    {
        if data.len() < 24 {
            return Err(
                KerlabError::new(KerlabErrorKind::Kerberos, "RC4 HMAC blob shorter than 24 bytes"),
            );
        }
        let usage_bytes = le32_bytes(self.usage.value());
        let k1 = hmac_md5(self.key.as_slice(), usage_bytes.as_slice());

        let expected_checksum = vstd::slice::slice_subrange(data, 0, 16);
        assert(expected_checksum@ =~= data@.take(16));
        let k3 = hmac_md5(k1.as_slice(), expected_checksum);

        let cipher = vstd::slice::slice_subrange(data, 16, data.len());
        assert(cipher@ =~= data@.skip(16));
        let mut rc4 = Rc4::new(k3.as_slice());
        let edata = rc4.process(cipher);

        let checksum = hmac_md5(k1.as_slice(), edata.as_slice());
        let mut matches_expected = true;
        let mut t: usize = 0;
        while t < 16
            invariant
                t <= 16,
                checksum@.len() == 16,
                expected_checksum@.len() == 16,
                matches_expected == (forall|u: int|
                    0 <= u < t ==> checksum@[u] == expected_checksum@[u]),
            decreases 16 - t,
        {
            if checksum[t] != *vstd::slice::slice_index_get(expected_checksum, t) {
                matches_expected = false;
            }
            t += 1;
        }
        proof {
            if matches_expected {
                assert(checksum@ =~= expected_checksum@);
            }
        }
        if !matches_expected {
            assert(checksum@ != expected_checksum@);
            return Err(KerlabError::new(KerlabErrorKind::Kerberos, "RC4 HMAC checksum mismatch"));
        }
        proof {
            lemma_rc4_process_len(rc4_init(k3@), cipher@);
        }
        let plaintext = vstd::slice::slice_to_vec(
            vstd::slice::slice_subrange(edata.as_slice(), 8, edata.len()),
        );
        assert(plaintext@ =~= edata@.skip(8));
        Ok(plaintext)
    }
}

} // verus!
