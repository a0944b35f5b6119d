//! Signed receipts: a small out-of-band proof that a node saw a particular
//! nonce, returned to the sender over any path.
//!
//! The byte layout, with `n` the total length: byte 0 the receipt version;
//! byte 1 the flags; bytes 2 to 25 the nonce; bytes 26 to 57 the sender id;
//! bytes 58 to n-65 the extra data; the last 64 bytes the signature over
//! bytes 0 to n-65.

use vstd::prelude::*;
use crate::crypto::{ed25519_sign, ed25519_verify, ed_public_key_of, ed_signature_of, CryptoError};
use crate::crypto_types::{CryptoKey, Nonce, PublicKey, SecretKey, Signature};
use crate::envelope::{append_bytes, copy_range};

verus! {

/// The one receipt version this suite speaks.
pub const RECEIPT_VERSION_V1: u8 = 1;

/// Bytes before the extra data.
pub const RECEIPT_HEADER_SIZE: usize = 58;

/// The smallest well-formed receipt: a header and a signature.
pub const MIN_RECEIPT_SIZE: usize = 122;

/// The most extra data a receipt may carry.
pub const MAX_RECEIPT_EXTRA_DATA: usize = 65535;

/// A receipt: version, flags, nonce, the sender's id, and free-form extra
/// data, all covered by the sender's signature on the wire.
#[derive(Debug)]
pub struct Receipt {
    pub version: u8,
    pub flags: u8,
    pub nonce: Nonce,
    pub sender_id: PublicKey,
    pub extra_data: Vec<u8>,
}

impl PartialEq for Receipt {
    fn eq(&self, other: &Receipt) -> (r: bool) {
        if self.version != other.version || self.flags != other.flags {
            return false;
        }
        if !(self.nonce == other.nonce) || !(self.sender_id == other.sender_id) {
            return false;
        }
        if self.extra_data.len() != other.extra_data.len() {
            proof {
                assert(self.extra_data@ != other.extra_data@);
            }
            return false;
        }
        let mut i: usize = 0;
        while i < self.extra_data.len()
            invariant
                i <= self.extra_data@.len(),
                self.extra_data@.len() == other.extra_data@.len(),
                forall|j: int| 0 <= j < i ==> self.extra_data@[j] == other.extra_data@[j],
            decreases self.extra_data@.len() - i,
        {
            if self.extra_data[i] != other.extra_data[i] {
                proof {
                    assert(self.extra_data@ != other.extra_data@) by {
                        if self.extra_data@ == other.extra_data@ {
                            assert(self.extra_data@[i as int] == other.extra_data@[i as int]);
                        }
                    }
                }
                return false;
            }
            i += 1;
        }
        proof {
            assert(self.extra_data@ =~= other.extra_data@);
        }
        true
    }
}

impl vstd::std_specs::cmp::PartialEqSpecImpl for Receipt {
    open spec fn obeys_eq_spec() -> bool {
        true
    }

    open spec fn eq_spec(&self, other: &Receipt) -> bool {
        self.version == other.version && self.flags == other.flags && self.nonce.bytes@
            == other.nonce.bytes@ && self.sender_id.bytes@ == other.sender_id.bytes@
            && self.extra_data@ == other.extra_data@
    }
}

impl Eq for Receipt {}

/// The signed region of a receipt from its parts.
pub open spec fn spec_receipt_region(
    version: u8,
    flags: u8,
    nonce: Seq<u8>,
    sender: Seq<u8>,
    extra: Seq<u8>,
) -> Seq<u8> {
    seq![version, flags] + nonce + sender + extra
}

impl Receipt {
    pub open spec fn wf(&self) -> bool {
        self.version == RECEIPT_VERSION_V1 && self.extra_data@.len() <= MAX_RECEIPT_EXTRA_DATA
    }

    /// The signed region of this receipt.
    pub open spec fn spec_region(&self) -> Seq<u8> {
        spec_receipt_region(
            self.version,
            self.flags,
            self.nonce.bytes@,
            self.sender_id.bytes@,
            self.extra_data@,
        )
    }

    /// Build a receipt. Rejects extra data over the format's limit.
    pub fn try_new(
        version: u8,
        flags: u8,
        nonce: Nonce,
        sender_id: PublicKey,
        extra_data: Vec<u8>,
    ) -> (r: Result<Receipt, CryptoError>)
        requires
            version == RECEIPT_VERSION_V1,
        ensures
            extra_data@.len() > MAX_RECEIPT_EXTRA_DATA ==> r == Result::<
                Receipt,
                CryptoError,
            >::Err(CryptoError::TooLong),
            extra_data@.len() <= MAX_RECEIPT_EXTRA_DATA ==> (r matches Ok(rc) && rc.version
                == version && rc.flags == flags && rc.nonce.bytes@ == nonce.bytes@
                && rc.sender_id.bytes@ == sender_id.bytes@ && rc.extra_data@ == extra_data@
                && rc.wf()),
    {
        if extra_data.len() > MAX_RECEIPT_EXTRA_DATA {
            return Err(CryptoError::TooLong);
        }
        Ok(Receipt { version, flags, nonce, sender_id, extra_data })
    }

    fn region_bytes(&self) -> (r: Vec<u8>)
        requires
            self.extra_data@.len() <= MAX_RECEIPT_EXTRA_DATA,
        ensures
            r@ == self.spec_region(),
            r@.len() == 58 + self.extra_data@.len(),
    {
        let mut r: Vec<u8> = Vec::new();
        r.push(self.version);
        r.push(self.flags);
        let mut i: usize = 0;
        while i < 24
            invariant
                i <= 24,
                r@ == seq![self.version, self.flags] + self.nonce.bytes@.take(i as int),
            decreases 24 - i,
        {
            r.push(self.nonce.bytes[i]);
            proof {
                assert(r@ =~= seq![self.version, self.flags] + self.nonce.bytes@.take(i as int + 1));
            }
            i += 1;
        }
        proof {
            assert(self.nonce.bytes@.take(24) =~= self.nonce.bytes@);
        }
        let mut i: usize = 0;
        while i < 32
            invariant
                i <= 32,
                r@ == seq![self.version, self.flags] + self.nonce.bytes@
                    + self.sender_id.bytes@.take(i as int),
            decreases 32 - i,
        {
            r.push(self.sender_id.bytes[i]);
            proof {
                assert(r@ =~= seq![self.version, self.flags] + self.nonce.bytes@
                    + self.sender_id.bytes@.take(i as int + 1));
            }
            i += 1;
        }
        proof {
            assert(self.sender_id.bytes@.take(32) =~= self.sender_id.bytes@);
        }
        append_bytes(&mut r, &self.extra_data);
        proof {
            assert(r@ =~= self.spec_region());
        }
        r
    }

    /// Serialize and sign the receipt.
    pub fn to_signed_data(&self, secret: &SecretKey) -> (r: Vec<u8>)
        requires
            self.extra_data@.len() <= MAX_RECEIPT_EXTRA_DATA,
        ensures
            r@ == self.spec_region() + ed_signature_of(secret.bytes@, self.spec_region()),
            ed_signature_of(secret.bytes@, self.spec_region()).len() == 64,
    {
        let mut data = self.region_bytes();
        let sig = ed25519_sign(secret, &data);
        let ghost presig = data@;
        let mut i: usize = 0;
        while i < 64
            invariant
                i <= 64,
                data@ == presig + sig.bytes@.take(i as int),
            decreases 64 - i,
        {
            data.push(sig.bytes[i]);
            proof {
                assert(data@ =~= presig + sig.bytes@.take(i as int + 1));
            }
            i += 1;
        }
        proof {
            assert(sig.bytes@.take(64) =~= sig.bytes@);
        }
        data
    }

    /// Parse and check a signed receipt. Data that `to_signed_data` produced
    /// under a key whose public half is the receipt's sender id parses back
    /// to the original receipt; anything too short, of another version, too
    /// large, or with a bad signature is rejected.
    pub fn from_signed_data(data: &Vec<u8>) -> (r: Result<Receipt, CryptoError>)
        ensures
            data@.len() < 122 ==> r is Err,
            r matches Ok(rc) ==> ({
                &&& rc.wf()
                &&& data@.len() >= 122
                &&& rc.version == data@[0]
                &&& rc.flags == data@[1]
                &&& rc.nonce.bytes@ == data@.subrange(2, 26)
                &&& rc.sender_id.bytes@ == data@.subrange(26, 58)
                &&& rc.extra_data@ == data@.subrange(58, data@.len() - 64)
            }),
            forall|flags: u8, nonce: Seq<u8>, sender: Seq<u8>, extra: Seq<u8>, sk: Seq<u8>|
                (nonce.len() == 24 && sender.len() == 32 && extra.len() <= MAX_RECEIPT_EXTRA_DATA
                    && sender == ed_public_key_of(sk) && ed_signature_of(
                    sk,
                    spec_receipt_region(RECEIPT_VERSION_V1, flags, nonce, sender, extra),
                ).len() == 64 && data@ == #[trigger] (spec_receipt_region(
                    RECEIPT_VERSION_V1,
                    flags,
                    nonce,
                    sender,
                    extra,
                ) + ed_signature_of(
                    sk,
                    spec_receipt_region(RECEIPT_VERSION_V1, flags, nonce, sender, extra),
                ))) ==> (r matches Ok(rc) && rc.version == RECEIPT_VERSION_V1 && rc.flags == flags
                    && rc.nonce.bytes@ == nonce && rc.sender_id.bytes@ == sender && rc.extra_data@
                    == extra),
    {
        proof {
            assert forall|flags: u8, nonce: Seq<u8>, sender: Seq<u8>, extra: Seq<u8>, sk: Seq<u8>|
                (nonce.len() == 24 && sender.len() == 32 && ed_signature_of(
                    sk,
                    spec_receipt_region(RECEIPT_VERSION_V1, flags, nonce, sender, extra),
                ).len() == 64 && data@ == #[trigger] (spec_receipt_region(
                    RECEIPT_VERSION_V1,
                    flags,
                    nonce,
                    sender,
                    extra,
                ) + ed_signature_of(
                    sk,
                    spec_receipt_region(RECEIPT_VERSION_V1, flags, nonce, sender, extra),
                ))) implies data@.len() >= 122 && data@[0] == RECEIPT_VERSION_V1 && data@[1]
                == flags && data@.subrange(2, 26) == nonce && data@.subrange(26, 58) == sender
                && data@.subrange(58, data@.len() - 64) == extra && data@.subrange(
                0,
                data@.len() - 64,
            ) == spec_receipt_region(RECEIPT_VERSION_V1, flags, nonce, sender, extra)
                && data@.subrange(data@.len() - 64, data@.len() as int) == ed_signature_of(
                sk,
                spec_receipt_region(RECEIPT_VERSION_V1, flags, nonce, sender, extra),
            ) by {
                let region = spec_receipt_region(RECEIPT_VERSION_V1, flags, nonce, sender, extra);
                assert(region.len() == 58 + extra.len());
                assert(data@.len() == 58 + extra.len() + 64);
                assert(data@.subrange(2, 26) =~= nonce);
                assert(data@.subrange(26, 58) =~= sender);
                assert(data@.subrange(58, data@.len() - 64) =~= extra);
                assert(data@.subrange(0, data@.len() - 64) =~= region);
                assert(data@.subrange(data@.len() - 64, data@.len() as int) =~= ed_signature_of(
                    sk,
                    region,
                ));
            }
        }
        let n = data.len();
        if n < 122 {
            return Err(CryptoError::BadFormat);
        }
        let version = data[0];
        if version != RECEIPT_VERSION_V1 {
            return Err(CryptoError::BadFormat);
        }
        if n - 122 > MAX_RECEIPT_EXTRA_DATA {
            return Err(CryptoError::TooLong);
        }
        let flags = data[1];
        let mut nonce_bytes = [0u8; 24];
        let mut i: usize = 0;
        while i < 24
            invariant
                i <= 24,
                data@.len() >= 122,
                forall|j: int| 0 <= j < i ==> nonce_bytes@[j] == data@[2 + j],
            decreases 24 - i,
        {
            nonce_bytes[i] = data[2 + i];
            i += 1;
        }
        let mut sender_bytes = [0u8; 32];
        let mut i: usize = 0;
        while i < 32
            invariant
                i <= 32,
                data@.len() >= 122,
                forall|j: int| 0 <= j < i ==> sender_bytes@[j] == data@[26 + j],
            decreases 32 - i,
        {
            sender_bytes[i] = data[26 + i];
            i += 1;
        }
        let extra_data = copy_range(data, 58, n - 64);
        let signed_region = copy_range(data, 0, n - 64);
        let mut sig_bytes = [0u8; 64];
        let sig_start = n - 64;
        let mut i: usize = 0;
        while i < 64
            invariant
                i <= 64,
                data@.len() >= 122,
                data@.len() <= usize::MAX,
                sig_start == data@.len() - 64,
                forall|j: int| 0 <= j < i ==> sig_bytes@[j] == data@[sig_start + j],
            decreases 64 - i,
        {
            sig_bytes[i] = data[sig_start + i];
            i += 1;
        }
        let rc = Receipt {
            version,
            flags,
            nonce: Nonce { bytes: nonce_bytes },
            sender_id: CryptoKey { bytes: sender_bytes },
            extra_data,
        };
        let signature = Signature { bytes: sig_bytes };
        proof {
            assert(rc.nonce.bytes@ =~= data@.subrange(2, 26));
            assert(rc.sender_id.bytes@ =~= data@.subrange(26, 58));
            assert(sig_bytes@ =~= data@.subrange(data@.len() - 64, data@.len() as int));
        }
        if !ed25519_verify(&rc.sender_id, &signed_region, &signature) {
            return Err(CryptoError::InvalidSignature);
        }
        Ok(rc)
    }
}


impl Receipt {
    /// The receipt round trip, established once and for all: sign the
    /// receipt with the sender's secret and parse the signed bytes back.
    /// For a well-formed receipt signed with its own sender's keys, the
    /// proof shows parsing cannot fail and recovers this same receipt.
    pub fn round_trip(&self, sender: &crate::crypto_types::KeyPair) -> (r: Option<Receipt>)
        ensures
            r matches Some(rc) ==> rc.version == self.version && rc.flags == self.flags
                && rc.nonce.bytes@ == self.nonce.bytes@ && rc.sender_id.bytes@
                == self.sender_id.bytes@ && rc.extra_data@ == self.extra_data@,
            (self.wf() && sender.key.bytes@ == ed_public_key_of(sender.secret.bytes@)
                && self.sender_id.bytes@ == sender.key.bytes@) ==> r is Some,
    {
        if !crate::crypto::validate_keypair(&sender.key, &sender.secret) {
            return None;
        }
        if !(self.sender_id == sender.key) {
            return None;
        }
        if self.version != RECEIPT_VERSION_V1 {
            return None;
        }
        if self.extra_data.len() > MAX_RECEIPT_EXTRA_DATA {
            return None;
        }
        let data = self.to_signed_data(&sender.secret);
        proof {
            assert(self.sender_id.bytes =~= sender.key.bytes);
        }
        match Receipt::from_signed_data(&data) {
            Ok(rc) => Some(rc),
            Err(_) => {
                proof {
                    assert(false);
                }
                None
            },
        }
    }
}

} // verus!
