//! The signed wire envelope. Every network frame is a version byte, a
//! crypto kind, a timestamp, a nonce, the sender and recipient node ids, an
//! encrypted payload, and a trailing signature over everything before it.
//!
//! The byte layout, with `n` the total length:
//! byte 0 the envelope version; bytes 1 to 4 the crypto kind; bytes 5 to 12
//! the timestamp, big endian; bytes 13 to 36 the nonce; bytes 37 to 68 the
//! sender id; bytes 69 to 100 the recipient id; bytes 101 to n-65 the
//! encrypted payload; the last 64 bytes the signature over bytes 0 to n-65.

use vstd::prelude::*;
use crate::crypto::{aead_ciphertext, aead_decrypt, aead_encrypt, compute_dh, dh_shared_secret,
    ed25519_sign, ed25519_verify, ed_public_key_of, ed_signature_of, CryptoError};
use crate::crypto_types::{CryptoKey, CryptoKind, FourCC, Nonce, PublicKey, SecretKey, Signature,
    spec_vld0_kind};

verus! {

/// The one envelope version this suite speaks.
pub const ENVELOPE_VERSION_V1: u8 = 1;

/// Bytes before the encrypted payload.
pub const ENVELOPE_HEADER_SIZE: usize = 101;

/// The smallest well-formed envelope: a header and a signature, with no
/// payload bytes between them.
pub const MIN_ENVELOPE_SIZE: usize = 165;

/// A u64 as eight big-endian bytes.
pub open spec fn spec_u64_be(v: u64) -> Seq<u8> {
    Seq::new(8, |i: int| ((v >> (((7 - i) * 8) as u64)) & 0xff) as u8)
}

/// Eight big-endian bytes folded back into a u64.
pub open spec fn spec_be_parse(s: Seq<u8>) -> u64 {
    (((s[0] as u64) << 56u64) | ((s[1] as u64) << 48u64) | ((s[2] as u64) << 40u64) | ((
    s[3] as u64) << 32u64) | ((s[4] as u64) << 24u64) | ((s[5] as u64) << 16u64) | ((s[6] as u64)
        << 8u64) | (s[7] as u64)) as u64
}

/// Parsing the big-endian bytes of a value gives the value back.
pub proof fn lemma_u64_be_round_trip(v: u64)
    ensures
        spec_be_parse(spec_u64_be(v)) == v,
{
    let s = spec_u64_be(v);
    assert(s[0] == ((v >> 56u64) & 0xff) as u8);
    assert(s[1] == ((v >> 48u64) & 0xff) as u8);
    assert(s[2] == ((v >> 40u64) & 0xff) as u8);
    assert(s[3] == ((v >> 32u64) & 0xff) as u8);
    assert(s[4] == ((v >> 24u64) & 0xff) as u8);
    assert(s[5] == ((v >> 16u64) & 0xff) as u8);
    assert(s[6] == ((v >> 8u64) & 0xff) as u8);
    assert(s[7] == ((v >> 0u64) & 0xff) as u8);
    assert((((((v >> 56u64) & 0xff) as u8) as u64) << 56u64) | (((((v >> 48u64) & 0xff) as u8)
        as u64) << 48u64) | (((((v >> 40u64) & 0xff) as u8) as u64) << 40u64) | (((((v >> 32u64)
        & 0xff) as u8) as u64) << 32u64) | (((((v >> 24u64) & 0xff) as u8) as u64) << 24u64) | ((((
    (v >> 16u64) & 0xff) as u8) as u64) << 16u64) | (((((v >> 8u64) & 0xff) as u8) as u64) << 8u64)
        | ((((v >> 0u64) & 0xff) as u8) as u64) == v) by (bit_vector);
}

/// Serialize a u64 as eight big-endian bytes.
pub fn u64_to_be_bytes(v: u64) -> (r: Vec<u8>)
    ensures
        r@ == spec_u64_be(v),
{
    let mut r: Vec<u8> = Vec::new();
    let mut i: usize = 0;
    while i < 8
        invariant
            i <= 8,
            r@.len() == i,
            forall|j: int| 0 <= j < i ==> r@[j] == ((v >> (((7 - j) * 8) as u64)) & 0xff) as u8,
        decreases 8 - i,
    {
        let shift: u64 = ((7 - i) * 8) as u64;
        r.push(((v >> shift) & 0xff) as u8);
        i += 1;
    }
    proof {
        assert(r@ =~= spec_u64_be(v));
    }
    r
}

/// Parse eight big-endian bytes starting at `off`.
pub fn u64_from_be_bytes(data: &Vec<u8>, off: usize) -> (r: u64)
    requires
        off + 8 <= data@.len(),
    ensures
        r == spec_be_parse(data@.subrange(off as int, off as int + 8)),
{
    // bind the length so its machine bound is in scope for the offsets
    let n = data.len();
    proof {
        assert(off + 8 <= n);
    }
    let r = (((data[off] as u64) << 56u64) | ((data[off + 1] as u64) << 48u64) | ((data[off
        + 2] as u64) << 40u64) | ((data[off + 3] as u64) << 32u64) | ((data[off + 4] as u64)
        << 24u64) | ((data[off + 5] as u64) << 16u64) | ((data[off + 6] as u64) << 8u64) | (data[off
        + 7] as u64)) as u64;
    proof {
        let s = data@.subrange(off as int, off as int + 8);
        assert(s[0] == data@[off as int]);
        assert(s[1] == data@[off as int + 1]);
        assert(s[2] == data@[off as int + 2]);
        assert(s[3] == data@[off as int + 3]);
        assert(s[4] == data@[off as int + 4]);
        assert(s[5] == data@[off as int + 5]);
        assert(s[6] == data@[off as int + 6]);
        assert(s[7] == data@[off as int + 7]);
    }
    r
}

/// Append the contents of `src` to `dst`.
pub fn append_bytes(dst: &mut Vec<u8>, src: &Vec<u8>)
    ensures
        final(dst)@ == old(dst)@ + src@,
{
    let mut i: usize = 0;
    while i < src.len()
        invariant
            i <= src@.len(),
            dst@ == old(dst)@ + src@.take(i as int),
        decreases src@.len() - i,
    {
        dst.push(src[i]);
        proof {
            assert(old(dst)@ + src@.take(i as int + 1) =~= (old(dst)@ + src@.take(i as int)).push(
                src@[i as int],
            ));
        }
        i += 1;
    }
    proof {
        assert(src@.take(src@.len() as int) =~= src@);
    }
}

/// Copy `data[start..end]` into a fresh vector.
pub fn copy_range(data: &Vec<u8>, start: usize, end: usize) -> (r: Vec<u8>)
    requires
        start <= end <= data@.len(),
    ensures
        r@ == data@.subrange(start as int, end as int),
{
    let mut r: Vec<u8> = Vec::new();
    let mut i: usize = start;
    while i < end
        invariant
            start <= i <= end <= data@.len(),
            r@ == data@.subrange(start as int, i as int),
        decreases end - i,
    {
        r.push(data[i]);
        proof {
            assert(r@ =~= data@.subrange(start as int, i as int + 1));
        }
        i += 1;
    }
    r
}

/// A parsed envelope header.
#[derive(Clone, Copy, Debug)]
#[verifier::ext_equal]
pub struct Envelope {
    pub version: u8,
    pub crypto_kind: CryptoKind,
    pub timestamp: u64,
    pub nonce: Nonce,
    pub sender_id: PublicKey,
    pub recipient_id: PublicKey,
}

impl PartialEq for Envelope {
    fn eq(&self, other: &Envelope) -> (r: bool) {
        self.version == other.version && self.crypto_kind == other.crypto_kind && self.timestamp
            == other.timestamp && self.nonce == other.nonce && self.sender_id == other.sender_id
            && self.recipient_id == other.recipient_id
    }
}

impl vstd::std_specs::cmp::PartialEqSpecImpl for Envelope {
    open spec fn obeys_eq_spec() -> bool {
        true
    }

    open spec fn eq_spec(&self, other: &Envelope) -> bool {
        self.version == other.version && self.crypto_kind == other.crypto_kind && self.timestamp
            == other.timestamp && self.nonce.bytes@ == other.nonce.bytes@
            && self.sender_id.bytes@ == other.sender_id.bytes@ && self.recipient_id.bytes@
            == other.recipient_id.bytes@
    }
}

impl Eq for Envelope {}

/// The 101 header bytes of an envelope.
pub open spec fn spec_envelope_header(env: Envelope) -> Seq<u8> {
    seq![env.version, env.crypto_kind.0, env.crypto_kind.1, env.crypto_kind.2, env.crypto_kind.3]
        + spec_u64_be(env.timestamp) + env.nonce.bytes@ + env.sender_id.bytes@
        + env.recipient_id.bytes@
}

/// A whole signed envelope: header, sealed payload, trailing signature.
pub open spec fn spec_envelope_bytes(env: Envelope, ct: Seq<u8>, sig: Seq<u8>) -> Seq<u8> {
    spec_envelope_header(env) + ct + sig
}

impl Envelope {
    pub open spec fn wf(&self) -> bool {
        self.version == ENVELOPE_VERSION_V1 && self.crypto_kind == spec_vld0_kind()
    }

    /// Build an envelope header for the given parties and time.
    pub fn new(
        version: u8,
        crypto_kind: CryptoKind,
        timestamp: u64,
        nonce: Nonce,
        sender_id: PublicKey,
        recipient_id: PublicKey,
    ) -> (r: Envelope)
        requires
            version == ENVELOPE_VERSION_V1,
            crypto_kind == spec_vld0_kind(),
        ensures
            r == (Envelope { version, crypto_kind, timestamp, nonce, sender_id, recipient_id }),
            r.wf(),
    {
        Envelope { version, crypto_kind, timestamp, nonce, sender_id, recipient_id }
    }

    pub fn get_version(&self) -> (r: u8)
        ensures
            r == self.version,
    {
        self.version
    }

    pub fn get_crypto_kind(&self) -> (r: CryptoKind)
        ensures
            r == self.crypto_kind,
    {
        self.crypto_kind
    }

    pub fn get_timestamp(&self) -> (r: u64)
        ensures
            r == self.timestamp,
    {
        self.timestamp
    }

    pub fn get_nonce(&self) -> (r: Nonce)
        ensures
            r == self.nonce,
    {
        self.nonce
    }

    pub fn get_sender_id(&self) -> (r: PublicKey)
        ensures
            r == self.sender_id,
    {
        self.sender_id
    }

    pub fn get_recipient_id(&self) -> (r: PublicKey)
        ensures
            r == self.recipient_id,
    {
        self.recipient_id
    }

    fn header_bytes(&self) -> (r: Vec<u8>)
        ensures
            r@ == spec_envelope_header(*self),
            r@.len() == 101,
    {
        let mut r: Vec<u8> = Vec::new();
        r.push(self.version);
        r.push(self.crypto_kind.0);
        r.push(self.crypto_kind.1);
        r.push(self.crypto_kind.2);
        r.push(self.crypto_kind.3);
        let ts = u64_to_be_bytes(self.timestamp);
        append_bytes(&mut r, &ts);
        let mut i: usize = 0;
        while i < 24
            invariant
                i <= 24,
                r@ == seq![
                    self.version,
                    self.crypto_kind.0,
                    self.crypto_kind.1,
                    self.crypto_kind.2,
                    self.crypto_kind.3,
                ] + spec_u64_be(self.timestamp) + self.nonce.bytes@.take(i as int),
            decreases 24 - i,
        {
            r.push(self.nonce.bytes[i]);
            proof {
                assert(r@ =~= seq![
                    self.version,
                    self.crypto_kind.0,
                    self.crypto_kind.1,
                    self.crypto_kind.2,
                    self.crypto_kind.3,
                ] + spec_u64_be(self.timestamp) + self.nonce.bytes@.take(i as int + 1));
            }
            i += 1;
        }
        proof {
            assert(self.nonce.bytes@.take(24) =~= self.nonce.bytes@);
        }
        let mut i: usize = 0;
        while i < 32
            invariant
                i <= 32,
                r@ == seq![
                    self.version,
                    self.crypto_kind.0,
                    self.crypto_kind.1,
                    self.crypto_kind.2,
                    self.crypto_kind.3,
                ] + spec_u64_be(self.timestamp) + self.nonce.bytes@ + self.sender_id.bytes@.take(
                    i as int,
                ),
            decreases 32 - i,
        {
            r.push(self.sender_id.bytes[i]);
            proof {
                assert(r@ =~= seq![
                    self.version,
                    self.crypto_kind.0,
                    self.crypto_kind.1,
                    self.crypto_kind.2,
                    self.crypto_kind.3,
                ] + spec_u64_be(self.timestamp) + self.nonce.bytes@ + self.sender_id.bytes@.take(
                    i as int + 1,
                ));
            }
            i += 1;
        }
        proof {
            assert(self.sender_id.bytes@.take(32) =~= self.sender_id.bytes@);
        }
        let mut i: usize = 0;
        while i < 32
            invariant
                i <= 32,
                r@ == seq![
                    self.version,
                    self.crypto_kind.0,
                    self.crypto_kind.1,
                    self.crypto_kind.2,
                    self.crypto_kind.3,
                ] + spec_u64_be(self.timestamp) + self.nonce.bytes@ + self.sender_id.bytes@
                    + self.recipient_id.bytes@.take(i as int),
            decreases 32 - i,
        {
            r.push(self.recipient_id.bytes[i]);
            proof {
                assert(r@ =~= seq![
                    self.version,
                    self.crypto_kind.0,
                    self.crypto_kind.1,
                    self.crypto_kind.2,
                    self.crypto_kind.3,
                ] + spec_u64_be(self.timestamp) + self.nonce.bytes@ + self.sender_id.bytes@
                    + self.recipient_id.bytes@.take(i as int + 1));
            }
            i += 1;
        }
        proof {
            assert(self.recipient_id.bytes@.take(32) =~= self.recipient_id.bytes@);
            assert(r@ =~= spec_envelope_header(*self));
        }
        r
    }

    /// Seal a body into the signed wire form: the payload is encrypted to
    /// the shared secret of the recipient id and the sender's secret, and
    /// the whole frame is signed by the sender.
    pub fn to_encrypted_data(&self, body: &Vec<u8>, sender_secret: &SecretKey) -> (r: Result<
        Vec<u8>,
        CryptoError,
    >)
        requires
            body@.len() < 0x10000000,
        ensures
            r matches Ok(out) ==> ({
                let ss = dh_shared_secret(self.recipient_id.bytes@, sender_secret.bytes@);
                let ct = aead_ciphertext(body@, self.nonce.bytes@, ss, Seq::<u8>::empty());
                let sig = ed_signature_of(
                    sender_secret.bytes@,
                    spec_envelope_header(*self) + ct,
                );
                &&& out@ == spec_envelope_bytes(*self, ct, sig)
                &&& sig.len() == 64
                &&& ct.len() == body@.len() + 16
            }),
            (exists|sk: Seq<u8>| self.recipient_id.bytes@ == ed_public_key_of(sk)) ==> r is Ok,
    {
        let ss = match compute_dh(&self.recipient_id, sender_secret) {
            Some(ss) => ss,
            None => {
                return Err(CryptoError::InvalidKey);
            },
        };
        let empty_ad: Vec<u8> = Vec::new();
        let ct = match aead_encrypt(body, &self.nonce, &ss, &empty_ad) {
            Ok(ct) => ct,
            Err(e) => {
                // sealing never exceeds the cipher's message limit here
                proof {
                    assert(false);
                }
                return Err(e);
            },
        };
        proof {
            assert(empty_ad@ =~= Seq::<u8>::empty());
        }
        let mut data = self.header_bytes();
        append_bytes(&mut data, &ct);
        let sig = ed25519_sign(sender_secret, &data);
        let ghost presig = data@;
        let mut i: usize = 0;
        while i < 64
            invariant
                i <= 64,
                data@ == presig + sig.bytes@.take(i as int),
            decreases 64 - i,
        {
            data.push(sig.bytes[i]);
            proof {
                assert(data@ =~= presig + sig.bytes@.take(i as int + 1));
            }
            i += 1;
        }
        proof {
            assert(sig.bytes@.take(64) =~= sig.bytes@);
            assert(data@ =~= spec_envelope_bytes(
                *self,
                aead_ciphertext(
                    body@,
                    self.nonce.bytes@,
                    dh_shared_secret(self.recipient_id.bytes@, sender_secret.bytes@),
                    Seq::<u8>::empty(),
                ),
                ed_signature_of(
                    sender_secret.bytes@,
                    spec_envelope_header(*self) + aead_ciphertext(
                        body@,
                        self.nonce.bytes@,
                        dh_shared_secret(self.recipient_id.bytes@, sender_secret.bytes@),
                        Seq::<u8>::empty(),
                    ),
                ),
            ));
        }
        Ok(data)
    }

    /// Parse and check a signed envelope. A frame that a sender sealed with
    /// `to_encrypted_data` under a key whose public half is its sender id
    /// parses back to the envelope it was sealed from; a frame shorter than
    /// the minimum, with an unknown version or kind, or with a bad signature
    /// is rejected.
    pub fn from_signed_data(data: &Vec<u8>) -> (r: Result<Envelope, CryptoError>)
        ensures
            data@.len() < 165 ==> r is Err,
            r matches Ok(env) ==> ({
                &&& env.wf()
                &&& data@.len() >= 165
                &&& env.version == data@[0]
                &&& env.crypto_kind == FourCC(data@[1], data@[2], data@[3], data@[4])
                &&& spec_u64_be(env.timestamp) == data@.subrange(5, 13)
                &&& env.nonce.bytes@ == data@.subrange(13, 37)
                &&& env.sender_id.bytes@ == data@.subrange(37, 69)
                &&& env.recipient_id.bytes@ == data@.subrange(69, 101)
            }),
            forall|env: Envelope, ct: Seq<u8>, sk: Seq<u8>|
                (env.wf() && env.sender_id.bytes@ == ed_public_key_of(sk) && ed_signature_of(
                    sk,
                    spec_envelope_header(env) + ct,
                ).len() == 64 && data@ == #[trigger] spec_envelope_bytes(
                    env,
                    ct,
                    ed_signature_of(sk, spec_envelope_header(env) + ct),
                )) ==> (r matches Ok(env2) && env2 == env),
    {
        proof {
            assert forall|env: Envelope, ct: Seq<u8>, sk: Seq<u8>|
                data@ == #[trigger] spec_envelope_bytes(
                    env,
                    ct,
                    ed_signature_of(sk, spec_envelope_header(env) + ct),
                ) && ed_signature_of(sk, spec_envelope_header(env) + ct).len()
                == 64 implies data@.len() >= 165 && data@.subrange(
                0,
                data@.len() - 64,
            ) == spec_envelope_header(env) + ct && data@.subrange(
                data@.len() - 64,
                data@.len() as int,
            ) == ed_signature_of(sk, spec_envelope_header(env) + ct) && data@[0] == env.version
                && data@[1] == env.crypto_kind.0 && data@[2] == env.crypto_kind.1 && data@[3]
                == env.crypto_kind.2 && data@[4] == env.crypto_kind.3 && data@.subrange(5, 13)
                == spec_u64_be(env.timestamp) && data@.subrange(13, 37) == env.nonce.bytes@
                && data@.subrange(37, 69) == env.sender_id.bytes@ && data@.subrange(69, 101)
                == env.recipient_id.bytes@ by {
                let hdr = spec_envelope_header(env);
                let sig = ed_signature_of(sk, hdr + ct);
                assert(hdr.len() == 101);
                assert(data@.len() == 101 + ct.len() + 64);
                assert(data@.subrange(0, data@.len() - 64) =~= hdr + ct);
                assert(data@.subrange(data@.len() - 64, data@.len() as int) =~= sig);
                assert(data@.subrange(5, 13) =~= spec_u64_be(env.timestamp));
                assert(data@.subrange(13, 37) =~= env.nonce.bytes@);
                assert(data@.subrange(37, 69) =~= env.sender_id.bytes@);
                assert(data@.subrange(69, 101) =~= env.recipient_id.bytes@);
            }
        }
        if data.len() < 165 {
            return Err(CryptoError::BadFormat);
        }
        let version = data[0];
        if version != ENVELOPE_VERSION_V1 {
            return Err(CryptoError::BadFormat);
        }
        let crypto_kind = FourCC(data[1], data[2], data[3], data[4]);
        let vk = crate::crypto_types::vld0_kind();
        if !(crypto_kind == vk) {
            return Err(CryptoError::BadFormat);
        }
        let timestamp = u64_from_be_bytes(data, 5);
        let mut nonce_bytes = [0u8; 24];
        let mut i: usize = 0;
        while i < 24
            invariant
                i <= 24,
                data@.len() >= 165,
                forall|j: int| 0 <= j < i ==> nonce_bytes@[j] == data@[13 + j],
            decreases 24 - i,
        {
            nonce_bytes[i] = data[13 + i];
            i += 1;
        }
        let mut sender_bytes = [0u8; 32];
        let mut i: usize = 0;
        while i < 32
            invariant
                i <= 32,
                data@.len() >= 165,
                forall|j: int| 0 <= j < i ==> sender_bytes@[j] == data@[37 + j],
            decreases 32 - i,
        {
            sender_bytes[i] = data[37 + i];
            i += 1;
        }
        let mut recipient_bytes = [0u8; 32];
        let mut i: usize = 0;
        while i < 32
            invariant
                i <= 32,
                data@.len() >= 165,
                forall|j: int| 0 <= j < i ==> recipient_bytes@[j] == data@[69 + j],
            decreases 32 - i,
        {
            recipient_bytes[i] = data[69 + i];
            i += 1;
        }
        let mut sig_bytes = [0u8; 64];
        let sig_start = data.len() - 64;
        let mut i: usize = 0;
        while i < 64
            invariant
                i <= 64,
                data@.len() >= 165,
                data@.len() <= usize::MAX,
                sig_start == data@.len() - 64,
                forall|j: int| 0 <= j < i ==> sig_bytes@[j] == data@[sig_start + j],
            decreases 64 - i,
        {
            sig_bytes[i] = data[sig_start + i];
            i += 1;
        }
        let env = Envelope {
            version,
            crypto_kind,
            timestamp,
            nonce: Nonce { bytes: nonce_bytes },
            sender_id: CryptoKey { bytes: sender_bytes },
            recipient_id: CryptoKey { bytes: recipient_bytes },
        };
        let signed_region = copy_range(data, 0, sig_start);
        let signature = Signature { bytes: sig_bytes };
        if !ed25519_verify(&env.sender_id, &signed_region, &signature) {
            proof {
                assert(sig_bytes@ =~= data@.subrange(data@.len() - 64, data@.len() as int));
                assert(env.sender_id.bytes@ =~= data@.subrange(37, 69));
                lemma_from_signed_mismatch(data@, env, signed_region@, sig_bytes@);
            }
            return Err(CryptoError::InvalidSignature);
        }
        proof {
            assert forall|env0: Envelope, ct: Seq<u8>, sk: Seq<u8>|
                (env0.wf() && env0.sender_id.bytes@ == ed_public_key_of(sk) && ed_signature_of(
                    sk,
                    spec_envelope_header(env0) + ct,
                ).len() == 64 && data@ == #[trigger] spec_envelope_bytes(
                    env0,
                    ct,
                    ed_signature_of(sk, spec_envelope_header(env0) + ct),
                )) implies env == env0 by {
                lemma_u64_be_round_trip(env0.timestamp);
                assert(env.nonce.bytes@ =~= data@.subrange(13, 37));
                assert(env.sender_id.bytes@ =~= data@.subrange(37, 69));
                assert(env.recipient_id.bytes@ =~= data@.subrange(69, 101));
                assert(env.nonce.bytes =~= env0.nonce.bytes);
                assert(env.sender_id.bytes =~= env0.sender_id.bytes);
                assert(env.recipient_id.bytes =~= env0.recipient_id.bytes);
                assert(env.nonce =~= env0.nonce);
                assert(env.sender_id =~= env0.sender_id);
                assert(env.recipient_id =~= env0.recipient_id);
                assert(env =~= env0);
            }
            assert(env.nonce.bytes@ =~= data@.subrange(13, 37));
            assert(env.sender_id.bytes@ =~= data@.subrange(37, 69));
            assert(env.recipient_id.bytes@ =~= data@.subrange(69, 101));
            assert(spec_u64_be(env.timestamp) =~= data@.subrange(5, 13)) by {
                lemma_be_parse_round_trip(data@.subrange(5, 13));
            }
        }
        Ok(env)
    }

    /// Decrypt the payload of a parsed envelope with the recipient's
    /// secret. A payload sealed to this envelope's recipient id by a sender
    /// whose id derives from `sk` decrypts back to the original body.
    pub fn decrypt_body(&self, data: &Vec<u8>, node_id_secret: &SecretKey) -> (r: Result<
        Vec<u8>,
        CryptoError,
    >)
        requires
            data@.len() >= 165,
        ensures
            forall|pt: Seq<u8>, sk: Seq<u8>|
                (self.sender_id.bytes@ == ed_public_key_of(sk) && data@.subrange(
                    101,
                    data@.len() - 64,
                ) == #[trigger] aead_ciphertext(
                    pt,
                    self.nonce.bytes@,
                    dh_shared_secret(ed_public_key_of(node_id_secret.bytes@), sk),
                    Seq::<u8>::empty(),
                )) ==> (r matches Ok(p) && p@ == pt),
    {
        let ct = copy_range(data, 101, data.len() - 64);
        let ss = match compute_dh(&self.sender_id, node_id_secret) {
            Some(ss) => ss,
            None => {
                return Err(CryptoError::InvalidKey);
            },
        };
        let empty_ad: Vec<u8> = Vec::new();
        proof {
            assert(empty_ad@ =~= Seq::<u8>::empty());
        }
        let out = aead_decrypt(&ct, &self.nonce, &ss, &empty_ad);
        match out {
            Ok(p) => Ok(p),
            Err(e) => Err(e),
        }
    }
}

/// If the trailing 64 bytes of `data` do not verify as a signature by the
/// parsed sender over the rest, then `data` is not a sealed envelope whose
/// header parses to those same fields.
proof fn lemma_from_signed_mismatch(
    data: Seq<u8>,
    env: Envelope,
    region: Seq<u8>,
    sig: Seq<u8>,
)
    requires
        data.len() >= 165,
        region == data.subrange(0, data.len() - 64),
        sig == data.subrange(data.len() - 64, data.len() as int),
        env.sender_id.bytes@ == data.subrange(37, 69),
        forall|sk: Seq<u8>|
            !(env.sender_id.bytes@ == ed_public_key_of(sk) && sig == ed_signature_of(sk, region)),
    ensures
        forall|env0: Envelope, ct: Seq<u8>, sk: Seq<u8>|
            !(env0.wf() && env0.sender_id.bytes@ == ed_public_key_of(sk) && ed_signature_of(
                sk,
                spec_envelope_header(env0) + ct,
            ).len() == 64 && data == #[trigger] spec_envelope_bytes(
                env0,
                ct,
                ed_signature_of(sk, spec_envelope_header(env0) + ct),
            )),
{
    assert forall|env0: Envelope, ct: Seq<u8>, sk: Seq<u8>|
        !(env0.wf() && env0.sender_id.bytes@ == ed_public_key_of(sk) && ed_signature_of(
            sk,
            spec_envelope_header(env0) + ct,
        ).len() == 64 && data == #[trigger] spec_envelope_bytes(
            env0,
            ct,
            ed_signature_of(sk, spec_envelope_header(env0) + ct),
        )) by {
        if env0.wf() && env0.sender_id.bytes@ == ed_public_key_of(sk) && ed_signature_of(
            sk,
            spec_envelope_header(env0) + ct,
        ).len() == 64 && data == spec_envelope_bytes(
            env0,
            ct,
            ed_signature_of(sk, spec_envelope_header(env0) + ct),
        ) {
            let hdr = spec_envelope_header(env0);
            let s0 = ed_signature_of(sk, hdr + ct);
            assert(hdr.len() == 101);
            assert(data.len() == 101 + ct.len() + 64);
            assert(region =~= hdr + ct);
            assert(sig =~= s0);
            assert(env.sender_id.bytes@ =~= env0.sender_id.bytes@);
        }
    }
}

/// Parsing then serializing eight bytes gives the bytes back.
pub proof fn lemma_be_parse_round_trip(s: Seq<u8>)
    requires
        s.len() == 8,
    ensures
        spec_u64_be(spec_be_parse(s)) == s,
{
    let b0 = s[0];
    let b1 = s[1];
    let b2 = s[2];
    let b3 = s[3];
    let b4 = s[4];
    let b5 = s[5];
    let b6 = s[6];
    let b7 = s[7];
    let v = spec_be_parse(s);
    assert(v == ((((b0 as u64) << 56u64) | ((b1 as u64) << 48u64) | ((b2 as u64) << 40u64) | ((
    b3 as u64) << 32u64) | ((b4 as u64) << 24u64) | ((b5 as u64) << 16u64) | ((b6 as u64) << 8u64)
        | (b7 as u64)) as u64));
    let w = (((b0 as u64) << 56u64) | ((b1 as u64) << 48u64) | ((b2 as u64) << 40u64) | ((b3 as u64)
        << 32u64) | ((b4 as u64) << 24u64) | ((b5 as u64) << 16u64) | ((b6 as u64) << 8u64) | (
    b7 as u64)) as u64;
    assert(((w >> 56u64) & 0xff) as u8 == b0 && ((w >> 48u64) & 0xff) as u8 == b1 && ((w >> 40u64)
        & 0xff) as u8 == b2 && ((w >> 32u64) & 0xff) as u8 == b3 && ((w >> 24u64) & 0xff) as u8
        == b4 && ((w >> 16u64) & 0xff) as u8 == b5 && ((w >> 8u64) & 0xff) as u8 == b6 && ((w
        >> 0u64) & 0xff) as u8 == b7) by (bit_vector)
        requires
            w == (((b0 as u64) << 56u64) | ((b1 as u64) << 48u64) | ((b2 as u64) << 40u64) | ((
            b3 as u64) << 32u64) | ((b4 as u64) << 24u64) | ((b5 as u64) << 16u64) | ((b6 as u64)
                << 8u64) | (b7 as u64)) as u64,
    ;
    assert(spec_u64_be(v) =~= s);
}


impl Envelope {
    /// The envelope round trip, established once and for all: seal a body
    /// under the sender's keys, parse the sealed bytes back, and decrypt
    /// with the recipient's secret. Whenever sealing succeeds, the proof
    /// shows parsing and decryption cannot fail, and the result is exactly
    /// this envelope and exactly the body.
    pub fn round_trip(
        &self,
        body: &Vec<u8>,
        sender: &crate::crypto_types::KeyPair,
        recipient: &crate::crypto_types::KeyPair,
    ) -> (r: Option<(Envelope, Vec<u8>)>)
        requires
            body@.len() < 0x10000000,
        ensures
            r matches Some(p) ==> p.0 == *self && p.1@ == body@,
            (sender.key.bytes@ == ed_public_key_of(sender.secret.bytes@) && recipient.key.bytes@
                == ed_public_key_of(recipient.secret.bytes@) && self.sender_id.bytes@
                == sender.key.bytes@ && self.recipient_id.bytes@ == recipient.key.bytes@
                && self.version == ENVELOPE_VERSION_V1 && self.crypto_kind
                == crate::crypto_types::spec_vld0_kind()) ==> r is Some,
    {
        if !crate::crypto::validate_keypair(&sender.key, &sender.secret) {
            return None;
        }
        if !crate::crypto::validate_keypair(&recipient.key, &recipient.secret) {
            return None;
        }
        if !(self.sender_id == sender.key) {
            return None;
        }
        if !(self.recipient_id == recipient.key) {
            return None;
        }
        if self.version != ENVELOPE_VERSION_V1 {
            return None;
        }
        let vk = crate::crypto_types::vld0_kind();
        if !(self.crypto_kind == vk) {
            return None;
        }
        let data = match self.to_encrypted_data(body, &sender.secret) {
            Ok(d) => d,
            Err(_) => {
                // sealing cannot fail for a validated recipient key
                proof {
                    assert(self.recipient_id.bytes@ == ed_public_key_of(recipient.secret.bytes@));
                    assert(false);
                }
                return None;
            },
        };
        proof {
            assert(self.sender_id.bytes =~= sender.key.bytes);
            assert(self.recipient_id.bytes =~= recipient.key.bytes);
            let ss = dh_shared_secret(self.recipient_id.bytes@, sender.secret.bytes@);
            let ct = aead_ciphertext(body@, self.nonce.bytes@, ss, Seq::<u8>::empty());
            assert(data@ == spec_envelope_bytes(
                *self,
                ct,
                ed_signature_of(sender.secret.bytes@, spec_envelope_header(*self) + ct),
            ));
        }
        let env2 = match Envelope::from_signed_data(&data) {
            Ok(e) => e,
            Err(_) => {
                proof {
                    assert(false);
                }
                return None;
            },
        };
        proof {
            let ss = dh_shared_secret(self.recipient_id.bytes@, sender.secret.bytes@);
            let ct = aead_ciphertext(body@, self.nonce.bytes@, ss, Seq::<u8>::empty());
            assert(data@.subrange(101, data@.len() - 64) =~= ct);
            assert(env2 == *self);
            assert(env2.nonce.bytes@ == self.nonce.bytes@);
        }
        let body2 = match env2.decrypt_body(&data, &recipient.secret) {
            Ok(b) => b,
            Err(_) => {
                proof {
                    assert(false);
                }
                return None;
            },
        };
        Some((env2, body2))
    }
}

} // verus!
