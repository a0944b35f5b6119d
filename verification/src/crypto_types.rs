//! Core cryptographic value types: four-character codes, crypto kinds,
//! 32-byte keys, typed keys, nonces and signatures, and the XOR distance
//! metric that the routing table's bucket layout is built on.

use vstd::prelude::*;
use vstd::std_specs::bits::u8_leading_zeros;

verus! {

/// A four-character code, used for crypto kinds, capabilities and schema
/// kinds.
#[derive(Clone, Copy, Debug, PartialEq, Eq, Structural)]
pub struct FourCC(pub u8, pub u8, pub u8, pub u8);

impl FourCC {
    pub fn new(b0: u8, b1: u8, b2: u8, b3: u8) -> (r: FourCC)
        ensures
            r == FourCC(b0, b1, b2, b3),
    {
        FourCC(b0, b1, b2, b3)
    }

    /// The code as its four raw bytes.
    pub fn to_bytes(&self) -> (r: Vec<u8>)
        ensures
            r@ == seq![self.0, self.1, self.2, self.3],
    {
        let mut v: Vec<u8> = Vec::new();
        v.push(self.0);
        v.push(self.1);
        v.push(self.2);
        v.push(self.3);
        proof {
            assert(v@ =~= seq![self.0, self.1, self.2, self.3]);
        }
        v
    }

    /// Parse a code from exactly four bytes.
    pub fn try_from_bytes(b: &Vec<u8>) -> (r: Option<FourCC>)
        ensures
            b@.len() == 4 ==> r == Some(FourCC(b@[0], b@[1], b@[2], b@[3])),
            b@.len() != 4 ==> r is None,
    {
        if b.len() == 4 {
            Some(FourCC(b[0], b[1], b[2], b[3]))
        } else {
            None
        }
    }
}

/// A crypto kind selects one versioned cipher suite.
pub type CryptoKind = FourCC;

/// The crypto kind of the version-zero suite.
pub open spec fn spec_vld0_kind() -> CryptoKind {
    FourCC(0x56, 0x4c, 0x44, 0x30)
}

/// The version-zero crypto kind (`VLD0`).
pub fn vld0_kind() -> (r: CryptoKind)
    ensures
        r == spec_vld0_kind(),
{
    FourCC(0x56, 0x4c, 0x44, 0x30)
}

/// The ordered list of crypto kinds this node supports, most preferred first.
pub open spec fn spec_valid_crypto_kinds() -> Seq<CryptoKind> {
    seq![spec_vld0_kind()]
}

/// The ordered list of crypto kinds this node supports, most preferred first.
pub fn valid_crypto_kinds() -> (r: Vec<CryptoKind>)
    ensures
        r@ == spec_valid_crypto_kinds(),
{
    let mut v: Vec<CryptoKind> = Vec::new();
    v.push(vld0_kind());
    proof {
        assert(v@ =~= spec_valid_crypto_kinds());
    }
    v
}

/// The preferred crypto kind: the first valid one.
pub fn best_crypto_kind() -> (r: CryptoKind)
    ensures
        r == spec_valid_crypto_kinds()[0],
{
    vld0_kind()
}

pub const CRYPTO_KEY_LENGTH: usize = 32;

pub const NONCE_LENGTH: usize = 24;

pub const SIGNATURE_LENGTH: usize = 64;

/// A 32-byte cryptographic value: a public key, a secret key, a shared
/// secret, a hash digest, or an XOR distance.
#[derive(Clone, Copy, Debug)]
#[verifier::ext_equal]
pub struct CryptoKey {
    pub bytes: [u8; 32],
}

impl PartialEq for CryptoKey {
    fn eq(&self, other: &CryptoKey) -> (r: bool) {
        let mut i: usize = 0;
        while i < 32
            invariant
                i <= 32,
                forall|j: int| 0 <= j < i ==> self.bytes@[j] == other.bytes@[j],
            decreases 32 - i,
        {
            if self.bytes[i] != other.bytes[i] {
                return false;
            }
            i += 1;
        }
        proof {
            assert(self.bytes@ =~= other.bytes@);
        }
        true
    }
}

impl vstd::std_specs::cmp::PartialEqSpecImpl for CryptoKey {
    open spec fn obeys_eq_spec() -> bool {
        true
    }

    open spec fn eq_spec(&self, other: &CryptoKey) -> bool {
        self.bytes@ == other.bytes@
    }
}

impl Eq for CryptoKey {}

impl CryptoKey {
    /// The all-zero key.
    pub fn new_zero() -> (r: CryptoKey)
        ensures
            r.bytes@ == Seq::<u8>::new(32, |i: int| 0u8),
    {
        let bytes = [0u8; 32];
        proof {
            assert(bytes@ =~= Seq::<u8>::new(32, |i: int| 0u8));
        }
        CryptoKey { bytes }
    }

    /// Build a key from exactly 32 bytes.
    pub fn try_from_vec(v: &Vec<u8>) -> (r: Option<CryptoKey>)
        ensures
            v@.len() == 32 ==> (r matches Some(k) && k.bytes@ == v@),
            v@.len() != 32 ==> r is None,
    {
        if v.len() != 32 {
            return None;
        }
        let mut bytes = [0u8; 32];
        let mut i: usize = 0;
        while i < 32
            invariant
                i <= 32,
                v@.len() == 32,
                forall|j: int| 0 <= j < i ==> bytes@[j] == v@[j],
            decreases 32 - i,
        {
            bytes[i] = v[i];
            i += 1;
        }
        proof {
            assert(bytes@ =~= v@);
        }
        Some(CryptoKey { bytes })
    }

    /// The key as a byte vector.
    pub fn to_vec(&self) -> (r: Vec<u8>)
        ensures
            r@ == self.bytes@,
    {
        let mut v: Vec<u8> = Vec::new();
        let mut i: usize = 0;
        while i < 32
            invariant
                i <= 32,
                v@ == self.bytes@.take(i as int),
            decreases 32 - i,
        {
            v.push(self.bytes[i]);
            proof {
                assert(v@ =~= self.bytes@.take(i as int + 1));
            }
            i += 1;
        }
        proof {
            assert(v@ =~= self.bytes@);
        }
        v
    }
}

pub type PublicKey = CryptoKey;

pub type SecretKey = CryptoKey;

pub type SharedSecret = CryptoKey;

pub type HashDigest = CryptoKey;

/// A key tagged with the crypto kind it belongs to.
#[derive(Clone, Copy, Debug)]
#[verifier::ext_equal]
pub struct TypedKey {
    pub kind: CryptoKind,
    pub value: CryptoKey,
}

impl PartialEq for TypedKey {
    fn eq(&self, other: &TypedKey) -> (r: bool) {
        self.kind == other.kind && self.value == other.value
    }
}

impl vstd::std_specs::cmp::PartialEqSpecImpl for TypedKey {
    open spec fn obeys_eq_spec() -> bool {
        true
    }

    open spec fn eq_spec(&self, other: &TypedKey) -> bool {
        self.kind == other.kind && self.value.bytes@ == other.value.bytes@
    }
}

impl Eq for TypedKey {}

impl TypedKey {
    pub fn new(kind: CryptoKind, value: CryptoKey) -> (r: TypedKey)
        ensures
            r.kind == kind,
            r.value == value,
    {
        TypedKey { kind, value }
    }
}

/// A keypair: a public key together with its secret key.
#[derive(Clone, Copy, Debug)]
pub struct KeyPair {
    pub key: PublicKey,
    pub secret: SecretKey,
}

/// A 24-byte random nonce.
#[derive(Clone, Copy, Debug)]
#[verifier::ext_equal]
pub struct Nonce {
    pub bytes: [u8; 24],
}

impl PartialEq for Nonce {
    fn eq(&self, other: &Nonce) -> (r: bool) {
        let mut i: usize = 0;
        while i < 24
            invariant
                i <= 24,
                forall|j: int| 0 <= j < i ==> self.bytes@[j] == other.bytes@[j],
            decreases 24 - i,
        {
            if self.bytes[i] != other.bytes[i] {
                return false;
            }
            i += 1;
        }
        proof {
            assert(self.bytes@ =~= other.bytes@);
        }
        true
    }
}

impl vstd::std_specs::cmp::PartialEqSpecImpl for Nonce {
    open spec fn obeys_eq_spec() -> bool {
        true
    }

    open spec fn eq_spec(&self, other: &Nonce) -> bool {
        self.bytes@ == other.bytes@
    }
}

impl Eq for Nonce {}

/// A 64-byte signature.
#[derive(Clone, Copy, Debug)]
#[verifier::ext_equal]
pub struct Signature {
    pub bytes: [u8; 64],
}

impl PartialEq for Signature {
    fn eq(&self, other: &Signature) -> (r: bool) {
        let mut i: usize = 0;
        while i < 64
            invariant
                i <= 64,
                forall|j: int| 0 <= j < i ==> self.bytes@[j] == other.bytes@[j],
            decreases 64 - i,
        {
            if self.bytes[i] != other.bytes[i] {
                return false;
            }
            i += 1;
        }
        proof {
            assert(self.bytes@ =~= other.bytes@);
        }
        true
    }
}

impl vstd::std_specs::cmp::PartialEqSpecImpl for Signature {
    open spec fn obeys_eq_spec() -> bool {
        true
    }

    open spec fn eq_spec(&self, other: &Signature) -> bool {
        self.bytes@ == other.bytes@
    }
}

impl Eq for Signature {}

/// The XOR distance between two keys, one byte at a time.
pub open spec fn spec_distance(a: Seq<u8>, b: Seq<u8>) -> Seq<u8> {
    Seq::new(32, |i: int| a[i] ^ b[i])
}

/// The XOR-distance metric between two keys under a kind's metric space.
pub fn distance(a: &CryptoKey, b: &CryptoKey) -> (r: CryptoKey)
    ensures
        r.bytes@ == spec_distance(a.bytes@, b.bytes@),
{
    let mut bytes = [0u8; 32];
    let mut i: usize = 0;
    while i < 32
        invariant
            i <= 32,
            forall|j: int| 0 <= j < i ==> bytes@[j] == (a.bytes@[j] ^ b.bytes@[j]),
        decreases 32 - i,
    {
        bytes[i] = a.bytes[i] ^ b.bytes[i];
        i += 1;
    }
    proof {
        assert(bytes@ =~= spec_distance(a.bytes@, b.bytes@));
    }
    CryptoKey { bytes }
}

/// The index of the first set bit of a key, counting the most significant
/// bit of the first byte as bit zero; 256 when the key is all zero.
pub open spec fn spec_first_nonzero_bit(s: Seq<u8>) -> int
    decreases s.len(),
{
    if s.len() == 0 {
        0
    } else if s[0] != 0 {
        u8_leading_zeros(s[0]) as int
    } else {
        8 + spec_first_nonzero_bit(s.skip(1))
    }
}

/// Find the first set bit of a key. Returns `None` for the all-zero key.
pub fn first_nonzero_bit(k: &CryptoKey) -> (r: Option<usize>)
    ensures
        r matches Some(b) ==> b == spec_first_nonzero_bit(k.bytes@) && b < 256,
        r is None ==> spec_first_nonzero_bit(k.bytes@) == 256,
{
    let mut i: usize = 0;
    proof {
        assert(k.bytes@.skip(0) =~= k.bytes@);
    }
    while i < 32
        invariant
            i <= 32,
            forall|j: int| 0 <= j < i ==> k.bytes@[j] == 0,
            spec_first_nonzero_bit(k.bytes@) == 8 * i + spec_first_nonzero_bit(
                k.bytes@.skip(i as int),
            ),
        decreases 32 - i,
    {
        if k.bytes[i] != 0 {
            let lz = k.bytes[i].leading_zeros();
            proof {
                vstd::std_specs::bits::axiom_u8_leading_zeros(k.bytes@[i as int]);
                assert(k.bytes@.skip(i as int)[0] == k.bytes@[i as int]);
            }
            return Some(8 * i + (lz as usize));
        }
        proof {
            let s = k.bytes@.skip(i as int);
            assert(s[0] == k.bytes@[i as int]);
            assert(s.skip(1) =~= k.bytes@.skip(i as int + 1));
        }
        i += 1;
    }
    proof {
        assert(k.bytes@.skip(32) =~= Seq::<u8>::empty());
        assert(spec_first_nonzero_bit(Seq::<u8>::empty()) == 0);
    }
    None
}

/// Lexicographic strict order on equal-length byte strings; the order the
/// XOR-distance metric sorts by.
pub open spec fn spec_bytes_lt(a: Seq<u8>, b: Seq<u8>) -> bool
    decreases a.len(),
{
    if a.len() == 0 || b.len() == 0 {
        false
    } else if a[0] != b[0] {
        a[0] < b[0]
    } else {
        spec_bytes_lt(a.skip(1), b.skip(1))
    }
}

/// Compare two keys in lexicographic (big-endian numeric) order.
pub fn key_lt(a: &CryptoKey, b: &CryptoKey) -> (r: bool)
    ensures
        r == spec_bytes_lt(a.bytes@, b.bytes@),
{
    let mut i: usize = 0;
    proof {
        assert(a.bytes@.skip(0) =~= a.bytes@);
        assert(b.bytes@.skip(0) =~= b.bytes@);
    }
    while i < 32
        invariant
            i <= 32,
            forall|j: int| 0 <= j < i ==> a.bytes@[j] == b.bytes@[j],
            spec_bytes_lt(a.bytes@, b.bytes@) == spec_bytes_lt(
                a.bytes@.skip(i as int),
                b.bytes@.skip(i as int),
            ),
        decreases 32 - i,
    {
        if a.bytes[i] != b.bytes[i] {
            proof {
                assert(a.bytes@.skip(i as int)[0] == a.bytes@[i as int]);
                assert(b.bytes@.skip(i as int)[0] == b.bytes@[i as int]);
            }
            return a.bytes[i] < b.bytes[i];
        }
        proof {
            let sa = a.bytes@.skip(i as int);
            let sb = b.bytes@.skip(i as int);
            assert(sa[0] == a.bytes@[i as int]);
            assert(sb[0] == b.bytes@[i as int]);
            assert(sa.skip(1) =~= a.bytes@.skip(i as int + 1));
            assert(sb.skip(1) =~= b.bytes@.skip(i as int + 1));
        }
        i += 1;
    }
    proof {
        assert(a.bytes@.skip(32).len() == 0);
    }
    false
}

} // verus!
