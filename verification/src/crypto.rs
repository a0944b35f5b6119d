//! The concrete crypto suite behind the version-zero crypto kind: Ed25519
//! keys and signatures, X25519 key agreement over the same keys, XChaCha20-
//! Poly1305 authenticated encryption, and a BLAKE3 hash.
//!
//! Every operation of an outside crypto crate sits behind one trusted
//! wrapper whose contract names its result; everything built on top is
//! verified against those names.

use vstd::prelude::*;
use ed25519_dalek::Signer;
use ed25519_dalek::Verifier;
use chacha20poly1305::KeyInit;
use chacha20poly1305::aead::Aead;
use crate::crypto_types::{CryptoKey, HashDigest, KeyPair, Nonce, PublicKey, SecretKey,
    SharedSecret, Signature};

verus! {

/// Why a crypto operation failed.
#[derive(Clone, Copy, Debug, PartialEq, Eq, Structural)]
pub enum CryptoError {
    /// A public key did not decode to a valid curve point.
    InvalidKey,
    /// Authenticated encryption refused the input.
    FailedToEncrypt,
    /// The ciphertext or its authentication tag did not check out.
    FailedToDecrypt,
    /// A signature did not verify.
    InvalidSignature,
    /// An input was too long for the wire format.
    TooLong,
    /// The framed data was too short or malformed.
    BadFormat,
}

/// The Ed25519 public key derived from a 32-byte secret seed.
pub uninterp spec fn ed_public_key_of(secret: Seq<u8>) -> Seq<u8>;

/// The Ed25519 signature of `data` under the key with secret seed `secret`.
/// Ed25519 signing is deterministic, so this is a function of its arguments.
pub uninterp spec fn ed_signature_of(secret: Seq<u8>, data: Seq<u8>) -> Seq<u8>;

/// The X25519 shared secret computed from a peer's Ed25519 public key and
/// our own secret seed, both mapped to the Montgomery curve.
pub uninterp spec fn dh_shared_secret(key: Seq<u8>, secret: Seq<u8>) -> Seq<u8>;

/// The XChaCha20-Poly1305 ciphertext (with trailing tag) of `body` under
/// `key` and `nonce` with associated data `ad`.
pub uninterp spec fn aead_ciphertext(body: Seq<u8>, nonce: Seq<u8>, key: Seq<u8>, ad: Seq<u8>) -> Seq<u8>;

/// The BLAKE3 digest of `data`.
pub uninterp spec fn blake3_digest(data: Seq<u8>) -> Seq<u8>;

/// Relies on rand::random for 32 random bytes; nothing is assumed of the
/// value.
#[verifier::external_body]
fn random_bytes_32() -> (r: [u8; 32])
    ensures
        r@.len() == 32,
{
    rand::random::<[u8; 32]>()
}

/// Relies on rand::random for 24 random bytes; nothing is assumed of the
/// value.
#[verifier::external_body]
fn random_bytes_24() -> (r: [u8; 24])
    ensures
        r@.len() == 24,
{
    rand::random::<[u8; 24]>()
}

/// A fresh random nonce. Two calls may return anything, including equal
/// values; nothing is assumed of the bytes.
pub fn random_nonce() -> (r: Nonce)
    ensures
        r.bytes@.len() == 24,
{
    Nonce { bytes: random_bytes_24() }
}

/// A fresh random shared secret, for callers that key a cipher directly.
pub fn random_shared_secret() -> (r: SharedSecret)
    ensures
        r.bytes@.len() == 32,
{
    CryptoKey { bytes: random_bytes_32() }
}

/// Relies on ed25519-dalek: SigningKey::from_bytes on a 32-byte seed, and
/// verifying_key, which derives the public key from the seed alone.
#[verifier::external_body]
pub fn ed25519_public_key(secret: &SecretKey) -> (r: PublicKey)
    ensures
        r.bytes@ == ed_public_key_of(secret.bytes@),
{
    let sk = ed25519_dalek::SigningKey::from_bytes(&secret.bytes);
    CryptoKey { bytes: sk.verifying_key().to_bytes() }
}

/// Relies on ed25519-dalek's Signer::sign, which is deterministic in the
/// seed and the message.
#[verifier::external_body]
pub fn ed25519_sign(secret: &SecretKey, data: &Vec<u8>) -> (r: Signature)
    ensures
        r.bytes@ == ed_signature_of(secret.bytes@, data@),
{
    let sk = ed25519_dalek::SigningKey::from_bytes(&secret.bytes);
    Signature { bytes: sk.sign(data.as_slice()).to_bytes() }
}

/// Relies on ed25519-dalek's Verifier::verify: a signature produced by
/// Signer::sign under the matching seed always verifies. Nothing is assumed
/// about inputs that were not produced that way.
#[verifier::external_body]
pub fn ed25519_verify(key: &PublicKey, data: &Vec<u8>, signature: &Signature) -> (r: bool)
    ensures
        !r ==> forall|sk: Seq<u8>|
            !(key.bytes@ == ed_public_key_of(sk) && signature.bytes@ == ed_signature_of(
                sk,
                data@,
            )),
{
    let vk = match ed25519_dalek::VerifyingKey::from_bytes(&key.bytes) {
        Ok(v) => v,
        Err(_) => {
            return false;
        },
    };
    let sig = ed25519_dalek::Signature::from_bytes(&signature.bytes);
    vk.verify(data.as_slice(), &sig).is_ok()
}

/// Relies on ed25519-dalek's VerifyingKey::to_montgomery and
/// SigningKey::to_scalar_bytes together with x25519-dalek's diffie_hellman:
/// both sides of an exchange map their Ed25519 keys to the Montgomery curve
/// and compute the same shared secret (X25519 key agreement, RFC 7748), so
/// for a peer key that is itself derived from a seed, the result equals the
/// secret the peer computes from our public key.  A key that is not a valid
/// curve point is rejected.
#[verifier::external_body]
pub fn compute_dh(key: &PublicKey, secret: &SecretKey) -> (r: Option<SharedSecret>)
    ensures
        r matches Some(s) ==> s.bytes@ == dh_shared_secret(key.bytes@, secret.bytes@),
        r is None ==> (forall|sk2: Seq<u8>| key.bytes@ != ed_public_key_of(sk2)),
        r matches Some(s) ==> forall|sk2: Seq<u8>|
            key.bytes@ == ed_public_key_of(sk2) ==> s.bytes@ == dh_shared_secret(
                ed_public_key_of(secret.bytes@),
                sk2,
            ),
{
    let vk = match ed25519_dalek::VerifyingKey::from_bytes(&key.bytes) {
        Ok(v) => v,
        Err(_) => {
            return None;
        },
    };
    let mp = vk.to_montgomery();
    let sk = ed25519_dalek::SigningKey::from_bytes(&secret.bytes);
    let xs = x25519_dalek::StaticSecret::from(sk.to_scalar_bytes());
    let ss = xs.diffie_hellman(&x25519_dalek::PublicKey::from(mp.to_bytes()));
    Some(CryptoKey { bytes: ss.to_bytes() })
}

/// Relies on chacha20poly1305's Aead::encrypt for XChaCha20Poly1305: the
/// ciphertext is a function of key, nonce, message and associated data, and
/// carries a 16-byte trailing tag. Encryption refuses only messages past
/// the cipher's block-counter limit, far above this library's frame sizes,
/// so it succeeds on every message up to 256 MiB.
#[verifier::external_body]
pub fn aead_encrypt(body: &Vec<u8>, nonce: &Nonce, key: &SharedSecret, ad: &Vec<u8>) -> (r: Result<
    Vec<u8>,
    CryptoError,
>)
    ensures
        r matches Ok(ct) ==> ct@ == aead_ciphertext(body@, nonce.bytes@, key.bytes@, ad@)
            && ct@.len() == body@.len() + 16,
        body@.len() <= 0x10000000 && ad@.len() <= 0x10000000 ==> r is Ok,
{
    let cipher = chacha20poly1305::XChaCha20Poly1305::new((&key.bytes).into());
    let payload = chacha20poly1305::aead::Payload { msg: body.as_slice(), aad: ad.as_slice() };
    cipher.encrypt(chacha20poly1305::XNonce::from_slice(&nonce.bytes), payload).map_err(
        |_| CryptoError::FailedToEncrypt,
    )
}

/// Relies on chacha20poly1305's Aead::decrypt for XChaCha20Poly1305:
/// decryption inverts encryption under the same key, nonce and associated
/// data, and succeeds only on a ciphertext that encryption produces.
#[verifier::external_body]
pub fn aead_decrypt(body: &Vec<u8>, nonce: &Nonce, key: &SharedSecret, ad: &Vec<u8>) -> (r: Result<
    Vec<u8>,
    CryptoError,
>)
    ensures
        r matches Ok(p) ==> body@ == aead_ciphertext(p@, nonce.bytes@, key.bytes@, ad@),
        r matches Ok(p) ==> (forall|pt: Seq<u8>|
            body@ == aead_ciphertext(pt, nonce.bytes@, key.bytes@, ad@) ==> pt == p@),
        r is Err ==> (forall|pt: Seq<u8>|
            body@ != aead_ciphertext(pt, nonce.bytes@, key.bytes@, ad@)),
{
    let cipher = chacha20poly1305::XChaCha20Poly1305::new((&key.bytes).into());
    let payload = chacha20poly1305::aead::Payload { msg: body.as_slice(), aad: ad.as_slice() };
    cipher.decrypt(chacha20poly1305::XNonce::from_slice(&nonce.bytes), payload).map_err(
        |_| CryptoError::FailedToDecrypt,
    )
}

/// Relies on blake3::hash: a 32-byte digest that is a function of the input
/// bytes alone.
#[verifier::external_body]
pub fn generate_hash(data: &Vec<u8>) -> (r: HashDigest)
    ensures
        r.bytes@ == blake3_digest(data@),
{
    CryptoKey { bytes: *blake3::hash(data.as_slice()).as_bytes() }
}

/// A cache of computed key agreements, keyed by the peer key and our
/// secret. Every cached value is the agreement the underlying operation
/// computes, so a cached answer equals a fresh one.
pub struct DhCache {
    pub entries: Vec<((PublicKey, SecretKey), SharedSecret)>,
}

impl DhCache {
    /// Every cached entry holds the true agreement of its pair.
    pub open spec fn wf(&self) -> bool {
        forall|i: int|
            0 <= i < self.entries@.len() ==> (#[trigger] self.entries@[i]).1.bytes@
                == dh_shared_secret(self.entries@[i].0.0.bytes@, self.entries@[i].0.1.bytes@)
    }

    pub fn new() -> (r: DhCache)
        ensures
            r.entries@.len() == 0,
            r.wf(),
    {
        DhCache { entries: Vec::new() }
    }

    /// The cached key agreement, computing and remembering it on a miss:
    /// the same answer `compute_dh` gives, whether it came from the cache
    /// or not.
    pub fn cached_dh(&mut self, key: &PublicKey, secret: &SecretKey) -> (r: Option<SharedSecret>)
        requires
            old(self).wf(),
        ensures
            final(self).wf(),
            r matches Some(s) ==> s.bytes@ == dh_shared_secret(key.bytes@, secret.bytes@),
            r is None ==> (forall|sk2: Seq<u8>| key.bytes@ != ed_public_key_of(sk2)) && *final(self)
                == *old(self),
    {
        let mut i: usize = 0;
        while i < self.entries.len()
            invariant
                i <= self.entries@.len(),
                self.wf(),
                *self == *old(self),
            decreases self.entries@.len() - i,
        {
            if self.entries[i].0.0 == *key && self.entries[i].0.1 == *secret {
                proof {
                    assert(self.entries@[i as int].0.0.bytes@ == key.bytes@);
                    assert(self.entries@[i as int].0.1.bytes@ == secret.bytes@);
                }
                return Some(self.entries[i].1);
            }
            i += 1;
        }
        let ss = match compute_dh(key, secret) {
            Some(ss) => ss,
            None => {
                return None;
            },
        };
        let ghost prev = self.entries@;
        self.entries.push(((*key, *secret), ss));
        proof {
            assert forall|j: int| 0 <= j < self.entries@.len() implies (
            #[trigger] self.entries@[j]).1.bytes@ == dh_shared_secret(
                self.entries@[j].0.0.bytes@,
                self.entries@[j].0.1.bytes@,
            ) by {
                if j < prev.len() {
                    assert(self.entries@[j] == prev[j]);
                }
            }
        }
        Some(ss)
    }
}

/// A keypair is well formed when its public key is the one derived from its
/// secret.
pub open spec fn spec_keypair_wf(kp: KeyPair) -> bool {
    kp.key.bytes@ == ed_public_key_of(kp.secret.bytes@)
}

/// Generate a fresh keypair: a random secret seed and the public key
/// derived from it.
pub fn generate_keypair() -> (r: KeyPair)
    ensures
        spec_keypair_wf(r),
{
    let secret = CryptoKey { bytes: random_bytes_32() };
    let key = ed25519_public_key(&secret);
    KeyPair { key, secret }
}

/// Check that a public key is the one derived from a secret.
pub fn validate_keypair(key: &PublicKey, secret: &SecretKey) -> (r: bool)
    ensures
        r == (key.bytes@ == ed_public_key_of(secret.bytes@)),
{
    let derived = ed25519_public_key(secret);
    let eq = derived == *key;
    proof {
        if eq {
            assert(derived.bytes@ == key.bytes@);
        } else {
            if derived.bytes@ == key.bytes@ {
                assert(derived.bytes =~= key.bytes);
            }
        }
    }
    eq
}

} // verus!
