//! DHT record storage: schema-checked, signed subkey values with strictly
//! increasing sequence numbers under local writes, plus the offline-write
//! queue that set-value falls back to without a network.

use vstd::prelude::*;
use crate::crypto::{blake3_digest, ed25519_sign, ed25519_verify, ed_public_key_of,
    ed_signature_of, generate_hash, CryptoError};
use crate::crypto_types::{CryptoKey, CryptoKind, KeyPair, PublicKey, SecretKey, Signature,
    TypedKey};
use crate::envelope::{append_bytes, spec_u64_be, u64_to_be_bytes};

verus! {

/// The largest single subkey value.
pub const MAX_SUBKEY_SIZE: usize = 32768;

/// The largest total record data size.
pub const MAX_RECORD_DATA_SIZE: usize = 1048576;

/// An index of a slot within a record.
pub type ValueSubkey = u32;

/// One member of a simple schema: a writer key and how many subkeys it owns.
#[derive(Clone, Copy, Debug)]
pub struct DHTSchemaSMPLMember {
    pub m_key: PublicKey,
    pub m_cnt: u16,
}

/// A record schema: either the default schema, owner-writable only, or a
/// simple schema that grants further writers their own subkey ranges.
#[derive(Debug)]
pub enum DHTSchema {
    DFLT { o_cnt: u16 },
    SMPL { o_cnt: u16, members: Vec<DHTSchemaSMPLMember> },
}

/// Total subkeys of a schema: the owner's plus every member's.
pub open spec fn spec_schema_subkey_count(s: &DHTSchema) -> int {
    match s {
        DHTSchema::DFLT { o_cnt } => *o_cnt as int,
        DHTSchema::SMPL { o_cnt, members } => *o_cnt as int + spec_member_count_sum(members@),
    }
}

/// How many members a schema names.
pub open spec fn spec_schema_member_count(s: &DHTSchema) -> int {
    match s {
        DHTSchema::DFLT { .. } => 0,
        DHTSchema::SMPL { members, .. } => members@.len() as int,
    }
}

pub open spec fn spec_member_count_sum(ms: Seq<DHTSchemaSMPLMember>) -> int
    decreases ms.len(),
{
    if ms.len() == 0 {
        0
    } else {
        ms[0].m_cnt as int + spec_member_count_sum(ms.skip(1))
    }
}

/// Who may write a subkey: the owner writes the first `o_cnt` subkeys; each
/// simple-schema member writes its own following range.
pub open spec fn spec_schema_allows(
    s: &DHTSchema,
    owner: Seq<u8>,
    subkey: int,
    writer: Seq<u8>,
) -> bool {
    match s {
        DHTSchema::DFLT { o_cnt } => 0 <= subkey < *o_cnt as int && writer == owner,
        DHTSchema::SMPL { o_cnt, members } => if 0 <= subkey < *o_cnt as int {
            writer == owner
        } else {
            spec_member_allows(members@, subkey - *o_cnt as int, writer)
        },
    }
}

pub open spec fn spec_member_allows(ms: Seq<DHTSchemaSMPLMember>, rel: int, writer: Seq<u8>) -> bool
    decreases ms.len(),
{
    if ms.len() == 0 {
        false
    } else if rel < ms[0].m_cnt as int {
        rel >= 0 && writer == ms[0].m_key.bytes@
    } else {
        spec_member_allows(ms.skip(1), rel - ms[0].m_cnt as int, writer)
    }
}

impl DHTSchema {
    /// How many subkeys the schema defines.
    pub fn subkey_count(&self) -> (r: usize)
        requires
            spec_schema_subkey_count(self) <= 65536 * 256,
        ensures
            r == spec_schema_subkey_count(self),
    {
        match self {
            DHTSchema::DFLT { o_cnt } => *o_cnt as usize,
            DHTSchema::SMPL { o_cnt, members } => {
                let mut total: usize = *o_cnt as usize;
                let mut i: usize = 0;
                proof {
                    assert(members@.skip(0) =~= members@);
                    lemma_member_sum_bounds(members@);
                }
                while i < members.len()
                    invariant
                        i <= members@.len(),
                        spec_schema_subkey_count(&*self) <= 65536 * 256,
                        *self matches DHTSchema::SMPL { o_cnt: oc, members: ms } && ms@ == members@
                            && spec_schema_subkey_count(&*self) == total + spec_member_count_sum(
                            members@.skip(i as int),
                        ),
                        total <= spec_schema_subkey_count(&*self),
                    decreases members@.len() - i,
                {
                    proof {
                        assert(members@.skip(i as int)[0] == members@[i as int]);
                        assert(members@.skip(i as int).skip(1) =~= members@.skip(i as int + 1));
                        lemma_member_sum_bounds(members@.skip(i as int + 1));
                    }
                    total = total + (members[i].m_cnt as usize);
                    i += 1;
                }
                proof {
                    assert(members@.skip(members@.len() as int) =~= Seq::<
                        DHTSchemaSMPLMember,
                    >::empty());
                }
                total
            },
        }
    }

    /// Whether `value_data`'s writer may write `subkey` under this schema
    /// for the given owner, and the data fits a subkey slot.
    pub fn check_subkey_value_data(
        &self,
        owner: &PublicKey,
        subkey: ValueSubkey,
        value_data: &ValueData,
    ) -> (r: bool)
        ensures
            r == (spec_schema_allows(
                self,
                owner.bytes@,
                subkey as int,
                value_data.writer.bytes@,
            ) && value_data.data@.len() <= MAX_SUBKEY_SIZE),
    {
        if value_data.data.len() > MAX_SUBKEY_SIZE {
            return false;
        }
        match self {
            DHTSchema::DFLT { o_cnt } => {
                (subkey as usize) < (*o_cnt as usize) && key_bytes_eq(&value_data.writer, owner)
            },
            DHTSchema::SMPL { o_cnt, members } => {
                if (subkey as usize) < (*o_cnt as usize) {
                    key_bytes_eq(&value_data.writer, owner)
                } else {
                    let mut rel: usize = (subkey as usize) - (*o_cnt as usize);
                    let mut i: usize = 0;
                    proof {
                        assert(members@.skip(0) =~= members@);
                        assert(spec_schema_allows(
                            &*self,
                            owner.bytes@,
                            subkey as int,
                            value_data.writer.bytes@,
                        ) == spec_member_allows(
                            members@,
                            rel as int,
                            value_data.writer.bytes@,
                        ));
                    }
                    while i < members.len()
                        invariant
                            i <= members@.len(),
                            value_data.data@.len() <= MAX_SUBKEY_SIZE,
                            spec_schema_allows(
                                &*self,
                                owner.bytes@,
                                subkey as int,
                                value_data.writer.bytes@,
                            ) == spec_member_allows(
                                members@.skip(i as int),
                                rel as int,
                                value_data.writer.bytes@,
                            ),
                        decreases members@.len() - i,
                    {
                        proof {
                            assert(members@.skip(i as int)[0] == members@[i as int]);
                            assert(members@.skip(i as int).skip(1) =~= members@.skip(i as int + 1));
                        }
                        if rel < members[i].m_cnt as usize {
                            return key_bytes_eq(&value_data.writer, &members[i].m_key);
                        }
                        rel = rel - (members[i].m_cnt as usize);
                        i += 1;
                    }
                    proof {
                        assert(members@.skip(members@.len() as int) =~= Seq::<
                            DHTSchemaSMPLMember,
                        >::empty());
                    }
                    false
                }
            },
        }
    }
}

proof fn lemma_member_sum_bounds(ms: Seq<DHTSchemaSMPLMember>)
    ensures
        spec_member_count_sum(ms) >= 0,
    decreases ms.len(),
{
    if ms.len() > 0 {
        lemma_member_sum_bounds(ms.skip(1));
    }
}

/// Compare two keys for byte equality.
pub fn key_bytes_eq(a: &CryptoKey, b: &CryptoKey) -> (r: bool)
    ensures
        r == (a.bytes@ == b.bytes@),
{
    let e = *a == *b;
    proof {
        if e {
        } else {
            if a.bytes@ == b.bytes@ {
                assert(a.bytes =~= b.bytes);
            }
        }
    }
    e
}

/// One stored subkey value: the payload, its sequence number, and the
/// writer that signed it.
#[derive(Debug)]
pub struct ValueData {
    pub seq: u32,
    pub data: Vec<u8>,
    pub writer: PublicKey,
}

impl Clone for ValueData {
    fn clone(&self) -> (r: Self)
        ensures
            r.seq == self.seq,
            r.data@ == self.data@,
            r.writer == self.writer,
    {
        let mut data: Vec<u8> = Vec::new();
        append_bytes(&mut data, &self.data);
        proof {
            assert(data@ =~= self.data@);
        }
        ValueData { seq: self.seq, data, writer: self.writer }
    }
}

impl ValueData {
    /// A first value: sequence number zero.
    pub fn new(data: Vec<u8>, writer: PublicKey) -> (r: ValueData)
        ensures
            r.seq == 0,
            r.data@ == data@,
            r.writer == writer,
    {
        ValueData { seq: 0, data, writer }
    }

    pub fn new_with_seq(seq: u32, data: Vec<u8>, writer: PublicKey) -> (r: ValueData)
        ensures
            r.seq == seq,
            r.data@ == data@,
            r.writer == writer,
    {
        ValueData { seq, data, writer }
    }

    pub fn seq(&self) -> (r: u32)
        ensures
            r == self.seq,
    {
        self.seq
    }

    pub fn data(&self) -> (r: &Vec<u8>)
        ensures
            r@ == self.data@,
    {
        &self.data
    }

    pub fn writer(&self) -> (r: &PublicKey)
        ensures
            r == self.writer,
    {
        &self.writer
    }
}

/// The bytes a subkey value's signature covers: the subkey, the sequence
/// number, the data, and the descriptor's owner.
pub open spec fn spec_value_sig_region(
    subkey: u32,
    seq: u32,
    data: Seq<u8>,
    owner: Seq<u8>,
) -> Seq<u8> {
    spec_u64_be(subkey as u64) + spec_u64_be(seq as u64) + data + owner
}

fn make_value_sig_region(subkey: u32, seq: u32, data: &Vec<u8>, owner: &PublicKey) -> (r: Vec<u8>)
    ensures
        r@ == spec_value_sig_region(subkey, seq, data@, owner.bytes@),
{
    let mut r = u64_to_be_bytes(subkey as u64);
    let seqb = u64_to_be_bytes(seq as u64);
    append_bytes(&mut r, &seqb);
    append_bytes(&mut r, data);
    let ob = owner.to_vec();
    append_bytes(&mut r, &ob);
    proof {
        assert(r@ =~= spec_value_sig_region(subkey, seq, data@, owner.bytes@));
    }
    r
}

/// A subkey value together with the writer's signature over it.
#[derive(Debug)]
pub struct SignedValueData {
    pub value_data: ValueData,
    pub signature: Signature,
}

impl Clone for SignedValueData {
    fn clone(&self) -> (r: Self)
        ensures
            r.value_data.seq == self.value_data.seq,
            r.value_data.data@ == self.value_data.data@,
            r.value_data.writer == self.value_data.writer,
            r.signature == self.signature,
    {
        SignedValueData { value_data: self.value_data.clone(), signature: self.signature }
    }
}

impl SignedValueData {
    /// Sign a subkey value with the writer's secret.
    pub fn make_signature(
        value_data: ValueData,
        owner: &PublicKey,
        subkey: ValueSubkey,
        writer_secret: &SecretKey,
    ) -> (r: SignedValueData)
        ensures
            r.value_data.seq == value_data.seq,
            r.value_data.data@ == value_data.data@,
            r.value_data.writer == value_data.writer,
            r.signature.bytes@ == ed_signature_of(
                writer_secret.bytes@,
                spec_value_sig_region(subkey, value_data.seq, value_data.data@, owner.bytes@),
            ),
    {
        let region = make_value_sig_region(subkey, value_data.seq, &value_data.data, owner);
        let signature = ed25519_sign(writer_secret, &region);
        SignedValueData { value_data, signature }
    }

    /// Check the writer's signature. A value signed by `make_signature`
    /// under a secret whose public key is the value's writer validates.
    pub fn validate(&self, owner: &PublicKey, subkey: ValueSubkey) -> (r: bool)
        ensures
            !r ==> (forall|sk: Seq<u8>|
                !(self.value_data.writer.bytes@ == ed_public_key_of(sk) && self.signature.bytes@
                    == ed_signature_of(
                    sk,
                    spec_value_sig_region(
                        subkey,
                        self.value_data.seq,
                        self.value_data.data@,
                        owner.bytes@,
                    ),
                ))),
    {
        let region = make_value_sig_region(
            subkey,
            self.value_data.seq,
            &self.value_data.data,
            owner,
        );
        ed25519_verify(&self.value_data.writer, &region, &self.signature)
    }

    pub fn value_data(&self) -> (r: &ValueData)
        ensures
            r == self.value_data,
    {
        &self.value_data
    }
}

/// A record's identity: its owner and schema, signed by the owner.
#[derive(Debug)]
pub struct SignedValueDescriptor {
    pub owner: PublicKey,
    pub schema: DHTSchema,
    pub signature: Signature,
}

impl SignedValueDescriptor {
    pub fn owner(&self) -> (r: &PublicKey)
        ensures
            r == self.owner,
    {
        &self.owner
    }

    pub fn schema(&self) -> (r: &DHTSchema)
        ensures
            r == self.schema,
    {
        &self.schema
    }
}

/// A record's key: the hash, under the record's crypto kind, of the kind
/// bytes, the owner key, and the schema bytes.
pub fn make_record_key(kind: CryptoKind, owner: &PublicKey, schema_data: &Vec<u8>) -> (r: TypedKey)
    ensures
        r.kind == kind,
        r.value.bytes@ == blake3_digest(
            seq![kind.0, kind.1, kind.2, kind.3] + owner.bytes@ + schema_data@,
        ),
{
    let mut buf = kind.to_bytes();
    let ob = owner.to_vec();
    append_bytes(&mut buf, &ob);
    append_bytes(&mut buf, schema_data);
    proof {
        assert(buf@ =~= seq![kind.0, kind.1, kind.2, kind.3] + owner.bytes@ + schema_data@);
    }
    let digest = generate_hash(&buf);
    TypedKey { kind, value: digest }
}

/// First-match subkey lookup in a record's stored values.
pub open spec fn spec_subkey_get(s: Seq<(u32, SignedValueData)>, subkey: u32) -> Option<int>
    decreases s.len(),
{
    if s.len() == 0 {
        None
    } else if s[0].0 == subkey {
        Some(0int)
    } else {
        match spec_subkey_get(s.skip(1), subkey) {
            Some(i) => Some(i + 1),
            None => None,
        }
    }
}

/// A found position names its key and is in range.
proof fn lemma_subkey_get_char(s: Seq<(u32, SignedValueData)>, subkey: u32)
    ensures
        spec_subkey_get(s, subkey) matches Some(i) ==> 0 <= i < s.len() && s[i].0 == subkey,
    decreases s.len(),
{
    if s.len() > 0 && s[0].0 != subkey {
        lemma_subkey_get_char(s.skip(1), subkey);
    }
}

/// Find a subkey's position in a record's stored values.
fn subkey_index(subkeys: &Vec<(u32, SignedValueData)>, subkey: u32) -> (r: Option<usize>)
    ensures
        r matches Some(i) ==> spec_subkey_get(subkeys@, subkey) == Some(i as int) && i
            < subkeys@.len() && subkeys@[i as int].0 == subkey,
        r is None ==> spec_subkey_get(subkeys@, subkey) is None,
{
    let mut i: usize = 0;
    proof {
        assert(subkeys@.skip(0) =~= subkeys@);
    }
    while i < subkeys.len()
        invariant
            i <= subkeys@.len(),
            spec_subkey_get(subkeys@, subkey) == match spec_subkey_get(
                subkeys@.skip(i as int),
                subkey,
            ) {
                Some(x) => Some(x + i),
                None => None::<int>,
            },
        decreases subkeys@.len() - i,
    {
        proof {
            assert(subkeys@.skip(i as int)[0] == subkeys@[i as int]);
            assert(subkeys@.skip(i as int).skip(1) =~= subkeys@.skip(i as int + 1));
        }
        if subkeys[i].0 == subkey {
            return Some(i);
        }
        i += 1;
    }
    None
}

/// One stored record: its signed descriptor and its subkey values.
#[derive(Debug)]
pub struct StoredRecord {
    pub descriptor: SignedValueDescriptor,
    pub subkeys: Vec<(u32, SignedValueData)>,
    pub last_touched_ts: u64,
}

/// A store of records by record key, enforcing the subkey sequence-number
/// invariant: a stored subkey value is only ever replaced by one with a
/// strictly higher sequence number.
pub struct RecordStore {
    pub records: Vec<(CryptoKey, StoredRecord)>,
}

/// What the manager remembers about an opened record: the writer keypair,
/// if writes are intended, and the safety policy it was opened with.
#[derive(Clone, Copy, Debug)]
pub struct OpenedRecord {
    pub writer: Option<KeyPair>,
    pub safety_selection: crate::safety::SafetySelection,
}

/// Why a set-value request was refused.
#[derive(Clone, Copy, Debug, PartialEq, Eq, Structural)]
pub enum SetValueError {
    /// The record is not stored locally or has not been opened.
    NotOpen,
    /// The record was opened without a writer.
    NoWriter,
    /// The stored sequence number cannot be increased any further.
    SequenceNumberExhausted,
    /// The schema refuses this writer, subkey or data size.
    SchemaCheckFailed,
}

/// First-match opened-record lookup.
pub open spec fn spec_opened_get(s: Seq<(CryptoKey, OpenedRecord)>, k: CryptoKey) -> Option<int>
    decreases s.len(),
{
    if s.len() == 0 {
        None
    } else if s[0].0.bytes@ == k.bytes@ {
        Some(0int)
    } else {
        match spec_opened_get(s.skip(1), k) {
            Some(i) => Some(i + 1),
            None => None,
        }
    }
}

/// First-match record lookup by key value.
pub open spec fn spec_record_get(s: Seq<(CryptoKey, StoredRecord)>, k: CryptoKey) -> Option<int>
    decreases s.len(),
{
    if s.len() == 0 {
        None
    } else if s[0].0 == k {
        Some(0int)
    } else {
        match spec_record_get(s.skip(1), k) {
            Some(i) => Some(i + 1),
            None => None,
        }
    }
}

/// First-match record lookup by the key's bytes alone.
pub open spec fn spec_record_get_by_view(s: Seq<(CryptoKey, StoredRecord)>, kb: Seq<u8>) -> Option<
    int,
>
    decreases s.len(),
{
    if s.len() == 0 {
        None
    } else if s[0].0.bytes@ == kb {
        Some(0int)
    } else {
        match spec_record_get_by_view(s.skip(1), kb) {
            Some(i) => Some(i + 1),
            None => None,
        }
    }
}

/// Lookup by key value and lookup by the key's bytes agree: a key equals
/// another exactly when their bytes do.
proof fn lemma_record_get_view_agree(s: Seq<(CryptoKey, StoredRecord)>, k: CryptoKey)
    ensures
        spec_record_get(s, k) == spec_record_get_by_view(s, k.bytes@),
    decreases s.len(),
{
    if s.len() > 0 {
        assert((s[0].0 == k) == (s[0].0.bytes@ == k.bytes@)) by {
            if s[0].0.bytes@ == k.bytes@ {
                assert(s[0].0.bytes =~= k.bytes);
                assert(s[0].0 =~= k);
            }
        }
        lemma_record_get_view_agree(s.skip(1), k);
    }
}

/// A found record position names its key and is in range.
proof fn lemma_record_get_char(s: Seq<(CryptoKey, StoredRecord)>, k: CryptoKey)
    ensures
        spec_record_get(s, k) matches Some(i) ==> 0 <= i < s.len() && s[i].0 == k,
    decreases s.len(),
{
    if s.len() > 0 && s[0].0 != k {
        lemma_record_get_char(s.skip(1), k);
    }
}

impl RecordStore {
    pub fn new() -> (r: RecordStore)
        ensures
            r.records@.len() == 0,
    {
        RecordStore { records: Vec::new() }
    }

    /// Find a record's position by key.
    pub fn find_record(&self, key: &CryptoKey) -> (r: Option<usize>)
        ensures
            r matches Some(i) ==> spec_record_get(self.records@, *key) == Some(i as int) && i
                < self.records@.len() && self.records@[i as int].0 == *key,
            r is None ==> spec_record_get(self.records@, *key) is None,
    {
        let mut i: usize = 0;
        proof {
            assert(self.records@.skip(0) =~= self.records@);
        }
        while i < self.records.len()
            invariant
                i <= self.records@.len(),
                spec_record_get(self.records@, *key) == match spec_record_get(
                    self.records@.skip(i as int),
                    *key,
                ) {
                    Some(x) => Some(x + i),
                    None => None::<int>,
                },
            decreases self.records@.len() - i,
        {
            proof {
                assert(self.records@.skip(i as int)[0] == self.records@[i as int]);
                assert(self.records@.skip(i as int).skip(1) =~= self.records@.skip(i as int + 1));
            }
            if self.records[i].0 == *key {
                proof {
                    assert(self.records@[i as int].0.bytes =~= key.bytes);
                }
                return Some(i);
            }
            proof {
                assert(self.records@[i as int].0 != *key) by {
                    if self.records@[i as int].0 == *key {
                        assert(self.records@[i as int].0.bytes@ == key.bytes@);
                    }
                }
            }
            i += 1;
        }
        None
    }

    /// Create a record under a key. Refuses a key that already has one.
    pub fn new_record(&mut self, key: CryptoKey, descriptor: SignedValueDescriptor, cur_ts: u64)
        -> (r: bool)
        ensures
            r == (spec_record_get(old(self).details_view(), key) is None),
            !r ==> *final(self) == *old(self),
            r ==> final(self).records@.len() == old(self).records@.len() + 1
                && final(self).records@.last().0 == key
                && final(self).records@.last().1.subkeys@.len() == 0 && (forall|j: int|
                0 <= j < old(self).records@.len() ==> final(self).records@[j] == old(
                    self,
                ).records@[j]),
    {
        if self.find_record(&key).is_some() {
            return false;
        }
        self.records.push(
            (key, StoredRecord { descriptor, subkeys: Vec::new(), last_touched_ts: cur_ts }),
        );
        true
    }

    /// A record list viewed as itself; a named alias so contracts read
    /// uniformly.
    pub open spec fn details_view(&self) -> Seq<(CryptoKey, StoredRecord)> {
        self.records@
    }

    /// The stored sequence number of a record's subkey, if any.
    pub open spec fn spec_stored_seq(&self, ri: int, subkey: u32) -> Option<u32> {
        match spec_subkey_get(self.records@[ri].1.subkeys@, subkey) {
            Some(si) => Some(self.records@[ri].1.subkeys@[si].1.value_data.seq),
            None => None,
        }
    }

    /// The whole stored value of a record's subkey, if any.
    pub open spec fn spec_stored_entry(&self, ri: int, subkey: u32) -> Option<SignedValueData> {
        match spec_subkey_get(self.records@[ri].1.subkeys@, subkey) {
            Some(si) => Some(self.records@[ri].1.subkeys@[si].1),
            None => None,
        }
    }

    /// Read a record's stored subkey value: the returned value is the stored
    /// one, field for field.
    pub fn get_subkey(&self, key: &CryptoKey, subkey: ValueSubkey) -> (r: Option<SignedValueData>)
        ensures
            r matches Some(v) ==> ({
                let ri = spec_record_get(self.records@, *key);
                &&& ri is Some
                &&& (self.spec_stored_entry(ri.unwrap(), subkey) matches Some(sv) && {
                    &&& v.value_data.seq == sv.value_data.seq
                    &&& v.value_data.data@ == sv.value_data.data@
                    &&& v.value_data.writer.bytes@ == sv.value_data.writer.bytes@
                    &&& v.signature.bytes@ == sv.signature.bytes@
                })
            }),
            r is None ==> ({
                let ri = spec_record_get(self.records@, *key);
                ri is None || self.spec_stored_entry(ri.unwrap(), subkey) is None
            }),
    {
        let ri = match self.find_record(key) {
            Some(ri) => ri,
            None => {
                return None;
            },
        };
        match subkey_index(&self.records[ri].1.subkeys, subkey) {
            Some(si) => Some(self.records[ri].1.subkeys[si].1.clone()),
            None => None,
        }
    }

    /// Store a subkey value. The write is accepted exactly when the record
    /// exists and the subkey is new or the incoming sequence number is
    /// strictly higher than the stored one: the stored sequence number never
    /// goes backwards.
    pub fn set_subkey(&mut self, key: &CryptoKey, subkey: ValueSubkey, value: SignedValueData)
        -> (r: bool)
        ensures
            ({
                let ri = spec_record_get(old(self).records@, *key);
                &&& r == (ri is Some && (old(self).spec_stored_seq(ri.unwrap(), subkey) is None
                    || old(self).spec_stored_seq(ri.unwrap(), subkey).unwrap()
                    < value.value_data.seq))
                &&& !r ==> *final(self) == *old(self)
                &&& r ==> ({
                    let rii = ri.unwrap();
                    &&& spec_record_get(final(self).records@, *key) == ri
                    &&& final(self).spec_stored_seq(rii, subkey) == Some(value.value_data.seq)
                    &&& (forall|sk2: u32|
                        sk2 != subkey ==> #[trigger] final(self).spec_stored_seq(rii, sk2)
                            == old(self).spec_stored_seq(rii, sk2))
                    &&& (forall|rj: int|
                        0 <= rj < old(self).records@.len() && rj != rii
                            ==> final(self).records@[rj] == old(self).records@[rj])
                })
            }),
    {
        let ri = match self.find_record(key) {
            Some(ri) => ri,
            None => {
                return false;
            },
        };
        // find the stored subkey position, if any
        let n = self.records[ri].1.subkeys.len();
        let pos = subkey_index(&self.records[ri].1.subkeys, subkey);
        // check monotonicity
        match pos {
            Some(p) => {
                if self.records[ri].1.subkeys[p].1.value_data.seq >= value.value_data.seq {
                    return false;
                }
            },
            None => {},
        }
        // rebuild the record with the new subkey value
        let ghost oldsubkeys = self.records@[ri as int].1.subkeys@;
        let rec = &self.records[ri];
        let k = rec.0;
        let mut new_subkeys: Vec<(u32, SignedValueData)> = Vec::new();
        let mut i: usize = 0;
        while i < n
            invariant
                i <= n,
                ri < self.records@.len(),
                n == self.records@[ri as int].1.subkeys@.len(),
                oldsubkeys == self.records@[ri as int].1.subkeys@,
                new_subkeys@.len() == i,
                pos matches Some(p) ==> p < n && oldsubkeys[p as int].0 == subkey,
                forall|j: int|
                    0 <= j < i ==> (#[trigger] new_subkeys@[j]).0 == oldsubkeys[j].0,
                forall|j: int|
                    0 <= j < i && (pos is None || pos.unwrap() != j)
                        ==> (#[trigger] new_subkeys@[j]).1.value_data.seq
                        == oldsubkeys[j].1.value_data.seq,
                pos matches Some(p) ==> (p < i ==> new_subkeys@[p as int].0 == subkey
                    && new_subkeys@[p as int].1.value_data.seq == value.value_data.seq),
            decreases n - i,
        {
            let replace_here = match pos {
                Some(p) => p == i,
                None => false,
            };
            if replace_here {
                new_subkeys.push((subkey, value.clone()));
            } else {
                let e = &self.records[ri].1.subkeys[i];
                new_subkeys.push((e.0, e.1.clone()));
            }
            i += 1;
        }
        if pos.is_none() {
            new_subkeys.push((subkey, value.clone()));
        }
        let ghost newsubkeysview = new_subkeys@;
        let descriptor = SignedValueDescriptor {
            owner: rec.1.descriptor.owner,
            schema: clone_schema(&rec.1.descriptor.schema),
            signature: rec.1.descriptor.signature,
        };
        let last_touched_ts = rec.1.last_touched_ts;
        self.records.set(ri, (k, StoredRecord { descriptor, subkeys: new_subkeys, last_touched_ts }));
        proof {
            let o = *old(self);
            let t = *self;
            assert(t.records@[ri as int].1.subkeys@ == newsubkeysview);
            lemma_record_get_stable(o.records@, t.records@, *key, ri as int);
            assert(forall|j: int|
                0 <= j < oldsubkeys.len() ==> (#[trigger] newsubkeysview[j]).0 == oldsubkeys[j].0);
            lemma_subkey_get_pointwise(oldsubkeys, newsubkeysview, subkey);
            match pos {
                Some(p) => {
                    assert(spec_subkey_get(newsubkeysview, subkey) == Some(p as int));
                    assert(newsubkeysview[p as int].1.value_data.seq == value.value_data.seq);
                },
                None => {
                    assert(newsubkeysview.last().0 == subkey);
                    assert(spec_subkey_get(newsubkeysview, subkey) == Some(oldsubkeys.len() as int));
                    assert(newsubkeysview.last().1.value_data.seq == value.value_data.seq);
                },
            }
            assert forall|sk2: u32| sk2 != subkey implies #[trigger] t.spec_stored_seq(
                ri as int,
                sk2,
            ) == o.spec_stored_seq(ri as int, sk2) by {
                lemma_subkey_get_pointwise(oldsubkeys, newsubkeysview, sk2);
                lemma_subkey_get_char(oldsubkeys, sk2);
                match spec_subkey_get(oldsubkeys, sk2) {
                    Some(x) => {
                        assert(newsubkeysview[x].1.value_data.seq == oldsubkeys[x].1.value_data.seq);
                    },
                    None => {},
                }
            }
        }
        true
    }
}

/// Clone a schema structurally.
pub fn clone_schema(s: &DHTSchema) -> (r: DHTSchema)
    ensures
        spec_schema_subkey_count(&r) == spec_schema_subkey_count(s),
        forall|owner: Seq<u8>, subkey: int, writer: Seq<u8>|
            #[trigger] spec_schema_allows(&r, owner, subkey, writer) == spec_schema_allows(
                s,
                owner,
                subkey,
                writer,
            ),
{
    match s {
        DHTSchema::DFLT { o_cnt } => DHTSchema::DFLT { o_cnt: *o_cnt },
        DHTSchema::SMPL { o_cnt, members } => {
            let mut ms: Vec<DHTSchemaSMPLMember> = Vec::new();
            let mut i: usize = 0;
            while i < members.len()
                invariant
                    i <= members@.len(),
                    ms@ == members@.take(i as int),
                decreases members@.len() - i,
            {
                ms.push(members[i]);
                proof {
                    assert(ms@ =~= members@.take(i as int + 1));
                }
                i += 1;
            }
            proof {
                assert(ms@ =~= members@);
            }
            DHTSchema::SMPL { o_cnt: *o_cnt, members: ms }
        },
    }
}

/// Lookup of a key is unchanged when only the value at its own position
/// changed, key kept.
proof fn lemma_record_get_stable(
    o: Seq<(CryptoKey, StoredRecord)>,
    t: Seq<(CryptoKey, StoredRecord)>,
    k: CryptoKey,
    ri: int,
)
    requires
        o.len() == t.len(),
        0 <= ri < o.len(),
        spec_record_get(o, k) == Some(ri),
        t[ri].0 == o[ri].0,
        forall|j: int| 0 <= j < o.len() && j != ri ==> t[j] == o[j],
    ensures
        spec_record_get(t, k) == Some(ri),
    decreases o.len(),
{
    lemma_record_get_char(o, k);
    if ri == 0 {
        assert(o[0].0 == k);
        assert(t[0].0 == k);
    } else {
        assert(t[0] == o[0]);
        assert(o[0].0 != k);
        assert(t.skip(1) =~= t.skip(1));
        assert(forall|j: int| 0 <= j < o.skip(1).len() && j != ri - 1 ==> t.skip(1)[j] == o.skip(1)[j]);
        assert(t.skip(1)[ri - 1].0 == o.skip(1)[ri - 1].0);
        lemma_record_get_stable(o.skip(1), t.skip(1), k, ri - 1);
    }
}

/// Where the new subkey list equals the old except at the looked-up subkey,
/// lookups of every subkey relate pointwise.
proof fn lemma_subkey_get_pointwise(
    o: Seq<(u32, SignedValueData)>,
    t: Seq<(u32, SignedValueData)>,
    sk: u32,
)
    requires
        t.len() == o.len() || t.len() == o.len() + 1,
        forall|j: int| 0 <= j < o.len() ==> (#[trigger] t[j]).0 == o[j].0,
    ensures
        spec_subkey_get(o, sk) matches Some(i) ==> (spec_subkey_get(t, sk) == Some(i) && 0 <= i
            < o.len() && t[i].0 == sk && o[i].0 == sk),
        spec_subkey_get(o, sk) is None && t.len() == o.len() ==> spec_subkey_get(t, sk) is None,
        spec_subkey_get(o, sk) is None && t.len() == o.len() + 1 && t.last().0 != sk
            ==> spec_subkey_get(t, sk) is None,
        spec_subkey_get(o, sk) is None && t.len() == o.len() + 1 && t.last().0 == sk
            ==> spec_subkey_get(t, sk) == Some(o.len() as int),
    decreases o.len(),
{
    lemma_subkey_get_char(o, sk);
    lemma_subkey_get_char(t, sk);
    if o.len() == 0 {
        if t.len() == 1 {
            assert(t.skip(1) =~= Seq::<(u32, SignedValueData)>::empty());
            assert(t[0] == t.last());
        }
    } else {
        assert(t[0].0 == o[0].0);
        if o[0].0 == sk {
        } else {
            assert(forall|j: int|
                0 <= j < o.skip(1).len() ==> (#[trigger] t.skip(1)[j]).0 == o.skip(1)[j].0);
            if t.len() == o.len() + 1 {
                assert(t.skip(1).last() == t.last());
            }
            lemma_subkey_get_pointwise(o.skip(1), t.skip(1), sk);
        }
    }
}


/// The outcome of a set-value operation.
#[derive(Debug)]
pub enum SetValueResult {
    /// The value was accepted and stored; nothing newer was seen.
    Stored(ValueData),
    /// The network returned a newer value, which is now stored and returned.
    Newer(ValueData),
}

/// The storage manager: the local record store plus the queue of subkeys
/// written while offline, to be flushed when the network returns.
pub struct StorageManager {
    pub local_record_store: RecordStore,
    pub offline_subkey_writes: Vec<(CryptoKey, Vec<ValueSubkey>)>,
    pub opened_records: Vec<(CryptoKey, OpenedRecord)>,
}

/// First-match offline-queue lookup.
pub open spec fn spec_offline_get(s: Seq<(CryptoKey, Vec<ValueSubkey>)>, k: CryptoKey) -> Option<
    int,
>
    decreases s.len(),
{
    if s.len() == 0 {
        None
    } else if s[0].0 == k {
        Some(0int)
    } else {
        match spec_offline_get(s.skip(1), k) {
            Some(i) => Some(i + 1),
            None => None,
        }
    }
}

impl StorageManager {
    pub fn new() -> (r: StorageManager)
        ensures
            r.local_record_store.records@.len() == 0,
            r.offline_subkey_writes@.len() == 0,
            r.opened_records@.len() == 0,
    {
        StorageManager {
            local_record_store: RecordStore::new(),
            offline_subkey_writes: Vec::new(),
            opened_records: Vec::new(),
        }
    }

    /// Create a local record: derive its key from the kind, owner and schema
    /// bytes, and store it. Succeeds exactly when no record with that key
    /// exists yet.
    pub fn create_record(
        &mut self,
        kind: CryptoKind,
        owner: &KeyPair,
        schema: DHTSchema,
        schema_data: &Vec<u8>,
        signature: Signature,
        cur_ts: u64,
    ) -> (r: Option<TypedKey>)
        ensures
            (r is Some) == (spec_record_get_by_view(
                old(self).local_record_store.records@,
                blake3_digest(seq![kind.0, kind.1, kind.2, kind.3] + owner.key.bytes@ + schema_data@),
            ) is None),
            r matches Some(k) ==> ({
                &&& k.kind == kind
                &&& k.value.bytes@ == blake3_digest(
                    seq![kind.0, kind.1, kind.2, kind.3] + owner.key.bytes@ + schema_data@,
                )
                &&& spec_record_get(old(self).local_record_store.records@, k.value) is None
                &&& spec_record_get(final(self).local_record_store.records@, k.value) is Some
            }),
            r is None ==> *final(self) == *old(self),
    {
        let key = make_record_key(kind, &owner.key, schema_data);
        let descriptor = SignedValueDescriptor { owner: owner.key, schema, signature };
        proof {
            lemma_record_get_view_agree(self.local_record_store.records@, key.value);
        }
        let created = self.local_record_store.new_record(key.value, descriptor, cur_ts);
        if created {
            proof {
                lemma_record_get_push_found(
                    old(self).local_record_store.records@,
                    self.local_record_store.records@,
                    key.value,
                );
            }
            Some(key)
        } else {
            None
        }
    }

    /// Write a subkey while the network cannot be reached: the signed value
    /// goes to the local store under the usual strictly-increasing sequence
    /// rule, and the subkey joins the offline-write queue for later
    /// flushing.
    pub fn set_value_offline(
        &mut self,
        key: &CryptoKey,
        subkey: ValueSubkey,
        value: SignedValueData,
    ) -> (r: bool)
        ensures
            ({
                let ri = spec_record_get(old(self).local_record_store.records@, *key);
                r == (ri is Some && (old(self).local_record_store.spec_stored_seq(
                    ri.unwrap(),
                    subkey,
                ) is None || old(self).local_record_store.spec_stored_seq(
                    ri.unwrap(),
                    subkey,
                ).unwrap() < value.value_data.seq))
            }),
            r ==> ({
                let ri = spec_record_get(old(self).local_record_store.records@, *key);
                final(self).local_record_store.spec_stored_seq(ri.unwrap(), subkey) == Some(
                    value.value_data.seq,
                )
            }),
            r ==> spec_offline_has(final(self).offline_subkey_writes@, *key, subkey),
            final(self).opened_records@ == old(self).opened_records@,
            !r ==> *final(self) == *old(self),
    {
        let ok = self.local_record_store.set_subkey(key, subkey, value);
        if !ok {
            return false;
        }
        self.queue_offline_write(key, subkey);
        true
    }

    /// Remember that a subkey was written while offline, so a later flush
    /// can push it to the network.
    fn queue_offline_write(&mut self, key: &CryptoKey, subkey: ValueSubkey)
        ensures
            spec_offline_has(final(self).offline_subkey_writes@, *key, subkey),
            final(self).local_record_store == old(self).local_record_store,
            final(self).opened_records@ == old(self).opened_records@,
    {
        let mut i: usize = 0;
        let n = self.offline_subkey_writes.len();
        while i < n
            invariant
                i <= n,
                n == self.offline_subkey_writes@.len(),
                self.local_record_store == old(self).local_record_store,
                self.opened_records@ == old(self).opened_records@,
                forall|j: int|
                    0 <= j < i ==> (#[trigger] self.offline_subkey_writes@[j]).0.bytes@
                        != key.bytes@,
            decreases n - i,
        {
            if self.offline_subkey_writes[i].0 == *key {
                proof {
                    assert(self.offline_subkey_writes@[i as int].0.bytes =~= key.bytes);
                }
                let mut subkeys: Vec<ValueSubkey> = Vec::new();
                let m = self.offline_subkey_writes[i].1.len();
                let mut a: usize = 0;
                while a < m
                    invariant
                        a <= m,
                        i < self.offline_subkey_writes@.len(),
                        m == self.offline_subkey_writes@[i as int].1@.len(),
                        subkeys@ == self.offline_subkey_writes@[i as int].1@.take(a as int),
                    decreases m - a,
                {
                    subkeys.push(self.offline_subkey_writes[i].1[a]);
                    proof {
                        assert(subkeys@ =~= self.offline_subkey_writes@[i as int].1@.take(
                            a as int + 1,
                        ));
                    }
                    a += 1;
                }
                subkeys.push(subkey);
                let k0 = self.offline_subkey_writes[i].0;
                self.offline_subkey_writes.set(i, (k0, subkeys));
                proof {
                    assert(self.offline_subkey_writes@[i as int].1@.last() == subkey);
                    assert(self.offline_subkey_writes@[i as int].0.bytes@ == key.bytes@);
                }
                return ;
            }
            proof {
                assert(self.offline_subkey_writes@[i as int].0.bytes@ != key.bytes@) by {
                    if self.offline_subkey_writes@[i as int].0.bytes@ == key.bytes@ {
                        assert(self.offline_subkey_writes@[i as int].0 =~= *key);
                    }
                }
            }
            i += 1;
        }
        let mut subkeys: Vec<ValueSubkey> = Vec::new();
        subkeys.push(subkey);
        self.offline_subkey_writes.push((*key, subkeys));
        proof {
            assert(self.offline_subkey_writes@.last().0.bytes@ == key.bytes@);
            assert(self.offline_subkey_writes@.last().1@.last() == subkey);
        }
    }

    /// Find an opened record's position.
    fn find_opened(&self, key: &CryptoKey) -> (r: Option<usize>)
        ensures
            r matches Some(i) ==> spec_opened_get(self.opened_records@, *key) == Some(i as int)
                && i < self.opened_records@.len() && self.opened_records@[i as int].0.bytes@
                == key.bytes@,
            r is None ==> spec_opened_get(self.opened_records@, *key) is None,
    {
        let mut i: usize = 0;
        proof {
            assert(self.opened_records@.skip(0) =~= self.opened_records@);
        }
        while i < self.opened_records.len()
            invariant
                i <= self.opened_records@.len(),
                spec_opened_get(self.opened_records@, *key) == match spec_opened_get(
                    self.opened_records@.skip(i as int),
                    *key,
                ) {
                    Some(x) => Some(x + i),
                    None => None::<int>,
                },
            decreases self.opened_records@.len() - i,
        {
            proof {
                assert(self.opened_records@.skip(i as int)[0] == self.opened_records@[i as int]);
                assert(self.opened_records@.skip(i as int).skip(1) =~= self.opened_records@.skip(
                    i as int + 1,
                ));
            }
            if self.opened_records[i].0 == *key {
                proof {
                    assert(self.opened_records@[i as int].0.bytes =~= key.bytes);
                }
                return Some(i);
            }
            proof {
                assert(self.opened_records@[i as int].0.bytes@ != key.bytes@) by {
                    if self.opened_records@[i as int].0.bytes@ == key.bytes@ {
                        assert(self.opened_records@[i as int].0 =~= *key);
                    }
                }
            }
            i += 1;
        }
        None
    }

    /// Open a locally stored record for use, with an optional writer.
    /// Succeeds exactly when the record is stored; reopening replaces the
    /// writer and safety policy.
    pub fn open_record_local(
        &mut self,
        key: &CryptoKey,
        writer: Option<KeyPair>,
        safety_selection: crate::safety::SafetySelection,
    ) -> (r: bool)
        ensures
            r == (spec_record_get(old(self).local_record_store.records@, *key) is Some),
            !r ==> *final(self) == *old(self),
            r ==> ({
                let oi = spec_opened_get(final(self).opened_records@, *key);
                &&& oi is Some
                &&& final(self).opened_records@[oi.unwrap()].1.writer == writer
                &&& final(self).opened_records@[oi.unwrap()].1.safety_selection == safety_selection
            }),
            final(self).local_record_store == old(self).local_record_store,
            final(self).offline_subkey_writes@ == old(self).offline_subkey_writes@,
    {
        if self.local_record_store.find_record(key).is_none() {
            return false;
        }
        let opened = OpenedRecord { writer, safety_selection };
        match self.find_opened(key) {
            Some(i) => {
                let k0 = self.opened_records[i].0;
                let ghost prev = self.opened_records@;
                self.opened_records.set(i, (k0, opened));
                proof {
                    lemma_opened_get_update(prev, i as int, *key, self.opened_records@[i as int]);
                }
            },
            None => {
                let ghost prev = self.opened_records@;
                self.opened_records.push((*key, opened));
                proof {
                    lemma_opened_get_push(prev, *key, self.opened_records@.last());
                }
            },
        }
        true
    }

    /// Close an opened record. Succeeds exactly when the record was open;
    /// afterwards the key is no longer open.
    pub fn close_record(&mut self, key: &CryptoKey) -> (r: bool)
        ensures
            r == (spec_opened_get(old(self).opened_records@, *key) is Some),
            spec_opened_get(final(self).opened_records@, *key) is None,
            final(self).local_record_store == old(self).local_record_store,
            final(self).offline_subkey_writes@ == old(self).offline_subkey_writes@,
            !r ==> *final(self) == *old(self),
    {
        let was_open = self.find_opened(key).is_some();
        if !was_open {
            return false;
        }
        let n = self.opened_records.len();
        let mut out: Vec<(CryptoKey, OpenedRecord)> = Vec::new();
        let mut i: usize = 0;
        while i < n
            invariant
                i <= n,
                n == self.opened_records@.len(),
                self.local_record_store == old(self).local_record_store,
                self.offline_subkey_writes@ == old(self).offline_subkey_writes@,
                self.opened_records@ == old(self).opened_records@,
                forall|j: int| 0 <= j < out@.len() ==> (#[trigger] out@[j]).0.bytes@ != key.bytes@,
            decreases n - i,
        {
            let e = self.opened_records[i];
            let same = e.0 == *key;
            proof {
                if !same {
                    if e.0.bytes@ == key.bytes@ {
                        assert(e.0.bytes =~= key.bytes);
                    }
                }
            }
            if !same {
                out.push(e);
            }
            i += 1;
        }
        self.opened_records = out;
        proof {
            lemma_opened_get_absent(self.opened_records@, *key);
        }
        true
    }

    /// Set the value of a subkey on an opened local record, offline: compute
    /// the next sequence number (one past the stored one, else zero), check
    /// the schema, sign with the opened writer, store under the monotonic
    /// rule, and queue the subkey for a later network flush. Fails exactly
    /// when the record is not stored or not open, was opened without a
    /// writer, its sequence numbers are exhausted, or the schema refuses the
    /// write.
    pub fn set_value(&mut self, key: &CryptoKey, subkey: ValueSubkey, data: Vec<u8>) -> (r: Result<
        SignedValueData,
        SetValueError,
    >)
        ensures
            ({
                let ri = spec_record_get(old(self).local_record_store.records@, *key);
                let oi = spec_opened_get(old(self).opened_records@, *key);
                let not_open = ri is None || oi is None;
                &&& not_open ==> r == Result::<SignedValueData, SetValueError>::Err(
                    SetValueError::NotOpen,
                ) && *final(self) == *old(self)
                &&& !not_open ==> ({
                    let writer = old(self).opened_records@[oi.unwrap()].1.writer;
                    let stored = old(self).local_record_store.spec_stored_entry(
                        ri.unwrap(),
                        subkey,
                    );
                    let descriptor = old(self).local_record_store.records@[ri.unwrap()].1.descriptor;
                    &&& writer is None ==> r == Result::<SignedValueData, SetValueError>::Err(
                        SetValueError::NoWriter,
                    ) && *final(self) == *old(self)
                    &&& (writer matches Some(w) ==> {
                        let exhausted = stored matches Some(sv) && sv.value_data.seq == u32::MAX;
                        let next_seq = match stored {
                            Some(sv) => sv.value_data.seq + 1,
                            None => 0int,
                        };
                        let schema_ok = spec_schema_allows(
                            &descriptor.schema,
                            descriptor.owner.bytes@,
                            subkey as int,
                            w.key.bytes@,
                        ) && data@.len() <= MAX_SUBKEY_SIZE;
                        &&& exhausted ==> r == Result::<SignedValueData, SetValueError>::Err(
                            SetValueError::SequenceNumberExhausted,
                        ) && *final(self) == *old(self)
                        &&& !exhausted && !schema_ok ==> r == Result::<
                            SignedValueData,
                            SetValueError,
                        >::Err(SetValueError::SchemaCheckFailed) && *final(self) == *old(self)
                        &&& !exhausted && schema_ok ==> (r matches Ok(v) && {
                            &&& v.value_data.seq == next_seq
                            &&& v.value_data.data@ == data@
                            &&& v.value_data.writer.bytes@ == w.key.bytes@
                            &&& v.signature.bytes@ == ed_signature_of(
                                w.secret.bytes@,
                                spec_value_sig_region(
                                    subkey,
                                    v.value_data.seq,
                                    data@,
                                    descriptor.owner.bytes@,
                                ),
                            )
                            &&& final(self).local_record_store.spec_stored_seq(
                                ri.unwrap(),
                                subkey,
                            ) == Some(v.value_data.seq)
                            &&& spec_offline_has(final(self).offline_subkey_writes@, *key, subkey)
                            &&& final(self).opened_records@ == old(self).opened_records@
                        })
                    })
                })
            }),
    {
        let ri = match self.local_record_store.find_record(key) {
            Some(ri) => ri,
            None => {
                return Err(SetValueError::NotOpen);
            },
        };
        let oi = match self.find_opened(key) {
            Some(oi) => oi,
            None => {
                return Err(SetValueError::NotOpen);
            },
        };
        let writer = match self.opened_records[oi].1.writer {
            Some(w) => w,
            None => {
                return Err(SetValueError::NoWriter);
            },
        };
        // the next sequence number: one past the stored value, else zero
        let last = self.local_record_store.get_subkey(key, subkey);
        let seq: u32 = match &last {
            Some(sv) => {
                if sv.value_data.seq == u32::MAX {
                    return Err(SetValueError::SequenceNumberExhausted);
                }
                sv.value_data.seq + 1
            },
            None => 0,
        };
        let value_data = ValueData::new_with_seq(seq, data, writer.key);
        // validate against the record's schema before anything is stored
        let rec = &self.local_record_store.records[ri].1;
        if !rec.descriptor.schema.check_subkey_value_data(&rec.descriptor.owner, subkey, &value_data)
        {
            return Err(SetValueError::SchemaCheckFailed);
        }
        let signed = SignedValueData::make_signature(
            value_data,
            &rec.descriptor.owner,
            subkey,
            &writer.secret,
        );
        let out = signed.clone();
        let ok = self.local_record_store.set_subkey(key, subkey, signed);
        proof {
            assert(ok);
        }
        self.queue_offline_write(key, subkey);
        Ok(out)
    }

    /// Fold in what an online set-value fanout returned: a value with a
    /// higher sequence number than ours replaces ours and is reported as
    /// newer; anything else leaves our value standing.
    pub fn complete_set_value(
        &mut self,
        key: &CryptoKey,
        subkey: ValueSubkey,
        ours: &SignedValueData,
        network_value: Option<SignedValueData>,
    ) -> (r: Option<SetValueResult>)
        ensures
            network_value matches Some(nv) ==> (if nv.value_data.seq > ours.value_data.seq {
                r matches Some(out) && out matches SetValueResult::Newer(v) && v.seq
                    == nv.value_data.seq
            } else {
                r matches Some(out) && (out matches SetValueResult::Stored(v) && v.seq
                    == ours.value_data.seq) && *final(self) == *old(self)
            }),
            network_value is None ==> (r matches Some(out) && (out
                matches SetValueResult::Stored(v) && v.seq == ours.value_data.seq) && *final(self)
                == *old(self)),
    {
        match network_value {
            Some(nv) => {
                if nv.value_data.seq > ours.value_data.seq {
                    let newer = nv.value_data.clone();
                    let _ = self.local_record_store.set_subkey(key, subkey, nv);
                    Some(SetValueResult::Newer(newer))
                } else {
                    Some(SetValueResult::Stored(ours.value_data.clone()))
                }
            },
            None => Some(SetValueResult::Stored(ours.value_data.clone())),
        }
    }

    /// Read a subkey from the local store: the stored value, field for
    /// field, and `None` exactly when nothing is stored.
    pub fn get_value_local(&self, key: &CryptoKey, subkey: ValueSubkey) -> (r: Option<
        SignedValueData,
    >)
        ensures
            r matches Some(v) ==> ({
                let ri = spec_record_get(self.local_record_store.records@, *key);
                &&& ri is Some
                &&& (self.local_record_store.spec_stored_entry(ri.unwrap(), subkey) matches Some(sv)
                    && {
                    &&& v.value_data.seq == sv.value_data.seq
                    &&& v.value_data.data@ == sv.value_data.data@
                    &&& v.value_data.writer.bytes@ == sv.value_data.writer.bytes@
                    &&& v.signature.bytes@ == sv.signature.bytes@
                })
            }),
            r is None ==> ({
                let ri = spec_record_get(self.local_record_store.records@, *key);
                ri is None || self.local_record_store.spec_stored_entry(ri.unwrap(), subkey) is None
            }),
    {
        self.local_record_store.get_subkey(key, subkey)
    }
}


/// Updating the found position keeps lookup pointing there.
proof fn lemma_opened_get_update(
    prev: Seq<(CryptoKey, OpenedRecord)>,
    i: int,
    k: CryptoKey,
    e: (CryptoKey, OpenedRecord),
)
    requires
        0 <= i < prev.len(),
        spec_opened_get(prev, k) == Some(i),
        e.0.bytes@ == k.bytes@,
    ensures
        spec_opened_get(prev.update(i, e), k) == Some(i),
    decreases prev.len(),
{
    let t = prev.update(i, e);
    if i == 0 {
        assert(t[0] == e);
    } else {
        assert(prev[0].0.bytes@ != k.bytes@);
        assert(t[0] == prev[0]);
        assert(t.skip(1) =~= prev.skip(1).update(i - 1, e));
        lemma_opened_get_update(prev.skip(1), i - 1, k, e);
    }
}

/// Pushing a fresh key makes lookup find it.
proof fn lemma_opened_get_push(
    prev: Seq<(CryptoKey, OpenedRecord)>,
    k: CryptoKey,
    e: (CryptoKey, OpenedRecord),
)
    requires
        spec_opened_get(prev, k) is None,
        e.0.bytes@ == k.bytes@,
    ensures
        spec_opened_get(prev.push(e), k) == Some(prev.len() as int),
    decreases prev.len(),
{
    if prev.len() == 0 {
        assert(prev.push(e)[0] == e);
        assert(prev.push(e).skip(1) =~= Seq::<(CryptoKey, OpenedRecord)>::empty());
    } else {
        assert(prev.push(e)[0] == prev[0]);
        assert(prev.push(e).skip(1) =~= prev.skip(1).push(e));
        lemma_opened_get_push(prev.skip(1), k, e);
    }
}

/// A list with no entry under the key has no lookup result.
proof fn lemma_opened_get_absent(s: Seq<(CryptoKey, OpenedRecord)>, k: CryptoKey)
    requires
        forall|j: int| 0 <= j < s.len() ==> (#[trigger] s[j]).0.bytes@ != k.bytes@,
    ensures
        spec_opened_get(s, k) is None,
    decreases s.len(),
{
    if s.len() > 0 {
        lemma_opened_get_absent(s.skip(1), k);
    }
}

/// Whether the offline queue holds a subkey for a record key.
pub open spec fn spec_offline_has(
    s: Seq<(CryptoKey, Vec<ValueSubkey>)>,
    k: CryptoKey,
    subkey: ValueSubkey,
) -> bool {
    exists|i: int, j: int|
        0 <= i < s.len() && 0 <= j < s[i].1@.len() && s[i].0.bytes@ == k.bytes@ && #[trigger] s[i].1@[j]
            == subkey
}

/// After a push of a fresh key, lookup finds it.
proof fn lemma_record_get_push_found(
    o: Seq<(CryptoKey, StoredRecord)>,
    t: Seq<(CryptoKey, StoredRecord)>,
    k: CryptoKey,
)
    requires
        spec_record_get(o, k) is None,
        t.len() == o.len() + 1,
        forall|j: int| 0 <= j < o.len() ==> t[j] == o[j],
        t.last().0 == k,
    ensures
        spec_record_get(t, k) == Some(o.len() as int),
    decreases o.len(),
{
    if o.len() == 0 {
        assert(t[0].0 == k);
        assert(t.skip(1) =~= Seq::<(CryptoKey, StoredRecord)>::empty());
    } else {
        assert(t[0] == o[0]);
        assert(t.skip(1).last() == t.last());
        assert(forall|j: int| 0 <= j < o.skip(1).len() ==> t.skip(1)[j] == o.skip(1)[j]);
        lemma_record_get_push_found(o.skip(1), t.skip(1), k);
    }
}


/// Detail kept for a locally created or opened record: the safety policy it
/// was opened with.
#[derive(Clone, Copy, Debug)]
pub struct LocalRecordDetail {
    pub safety_selection: crate::safety::SafetySelection,
}

/// Detail kept for a record another node pushed to us for distribution.
#[derive(Clone, Copy, Debug, PartialEq, Eq, Structural)]
pub struct RemoteRecordDetail {}

/// Bookkeeping for one record in a store: its signed descriptor, its subkey
/// count, when it was last touched, how much data it holds, and the
/// store-specific detail.
#[derive(Debug)]
pub struct Record<D> {
    pub descriptor: SignedValueDescriptor,
    pub subkey_count: usize,
    pub last_touched_ts: u64,
    pub record_data_size: usize,
    pub detail: D,
}

impl<D> Record<D> {
    /// A fresh record around a descriptor; the subkey count comes from the
    /// descriptor's schema.
    pub fn new(cur_ts: u64, descriptor: SignedValueDescriptor, detail: D) -> (r: Record<D>)
        requires
            spec_schema_subkey_count(&descriptor.schema) <= 65536 * 256,
        ensures
            r.subkey_count == spec_schema_subkey_count(&r.descriptor.schema),
            r.last_touched_ts == cur_ts,
            r.record_data_size == 0,
            r.descriptor == descriptor,
            r.detail == detail,
    {
        let subkey_count = descriptor.schema.subkey_count();
        Record { descriptor, subkey_count, last_touched_ts: cur_ts, record_data_size: 0, detail }
    }

    pub fn descriptor(&self) -> (r: &SignedValueDescriptor)
        ensures
            r == self.descriptor,
    {
        &self.descriptor
    }

    pub fn owner(&self) -> (r: &PublicKey)
        ensures
            r == self.descriptor.owner,
    {
        &self.descriptor.owner
    }

    pub fn subkey_count(&self) -> (r: usize)
        ensures
            r == self.subkey_count,
    {
        self.subkey_count
    }

    /// Note that the record was used now.
    pub fn touch(&mut self, cur_ts: u64)
        ensures
            *final(self) == (Record { last_touched_ts: cur_ts, ..*old(self) }),
    {
        self.last_touched_ts = cur_ts;
    }

    pub fn last_touched(&self) -> (r: u64)
        ensures
            r == self.last_touched_ts,
    {
        self.last_touched_ts
    }

    pub fn set_record_data_size(&mut self, size: usize)
        ensures
            *final(self) == (Record { record_data_size: size, ..*old(self) }),
    {
        self.record_data_size = size;
    }

    pub fn record_data_size(&self) -> (r: usize)
        ensures
            r == self.record_data_size,
    {
        self.record_data_size
    }

    pub fn schema(&self) -> (r: &DHTSchema)
        ensures
            r == self.descriptor.schema,
    {
        &self.descriptor.schema
    }

    /// The record's accounted size: its data plus the descriptor's size,
    /// counted as the owner key, the signature, and the schema's encoding
    /// (a two-byte count for the owner plus thirty-four bytes per member).
    pub fn total_size(&self) -> (r: usize)
        requires
            self.record_data_size + 96 + 2 + 34 * spec_schema_member_count(
                &self.descriptor.schema,
            ) <= usize::MAX,
        ensures
            r == self.record_data_size + 96 + 2 + 34 * spec_schema_member_count(
                &self.descriptor.schema,
            ),
    {
        let members: usize = match &self.descriptor.schema {
            DHTSchema::DFLT { .. } => 0,
            DHTSchema::SMPL { members, .. } => members.len(),
        };
        proof {
            assert(members == spec_schema_member_count(&self.descriptor.schema));
            assert(34 * members <= 34 * spec_schema_member_count(&self.descriptor.schema));
        }
        self.record_data_size + 96 + 2 + 34 * members
    }

    pub fn detail(&self) -> (r: &D)
        ensures
            r == self.detail,
    {
        &self.detail
    }

    /// Replace the store-specific detail.
    pub fn set_detail(&mut self, detail: D)
        ensures
            *final(self) == (Record { detail, ..*old(self) }),
    {
        self.detail = detail;
    }
}

/// Bookkeeping for a value record held by the client API: its schema, the
/// safety policy, and an optional owner secret.
#[derive(Debug)]
pub struct ValueRecord {
    pub last_touched_ts: u64,
    pub secret: Option<SecretKey>,
    pub schema: DHTSchema,
    pub safety_selection: crate::safety::SafetySelection,
    pub data_size: usize,
}

/// A stored value with its signature, as a value record keeps it.
#[derive(Debug)]
pub struct ValueRecordData {
    pub data: ValueData,
    pub signature: Signature,
}

impl ValueRecord {
    pub fn new(
        cur_ts: u64,
        secret: Option<SecretKey>,
        schema: DHTSchema,
        safety_selection: crate::safety::SafetySelection,
    ) -> (r: ValueRecord)
        ensures
            r.last_touched_ts == cur_ts,
            r.secret == secret,
            r.schema == schema,
            r.safety_selection == safety_selection,
            r.data_size == 0,
    {
        ValueRecord { last_touched_ts: cur_ts, secret, schema, safety_selection, data_size: 0 }
    }

    pub fn subkey_count(&self) -> (r: usize)
        requires
            spec_schema_subkey_count(&self.schema) <= 65536 * 256,
        ensures
            r == spec_schema_subkey_count(&self.schema),
    {
        self.schema.subkey_count()
    }

    pub fn touch(&mut self, cur_ts: u64)
        ensures
            *final(self) == (ValueRecord { last_touched_ts: cur_ts, ..*old(self) }),
    {
        self.last_touched_ts = cur_ts;
    }

    pub fn last_touched(&self) -> (r: u64)
        ensures
            r == self.last_touched_ts,
    {
        self.last_touched_ts
    }
}

/// The client-facing description of an opened record: its key, owner, an
/// owner secret when we created it, and its schema.
#[derive(Debug)]
pub struct DHTRecordDescriptor {
    pub key: TypedKey,
    pub owner: PublicKey,
    pub owner_secret: Option<SecretKey>,
    pub schema: DHTSchema,
}

impl DHTRecordDescriptor {
    pub fn new(
        key: TypedKey,
        owner: PublicKey,
        owner_secret: Option<SecretKey>,
        schema: DHTSchema,
    ) -> (r: DHTRecordDescriptor)
        ensures
            r.key == key,
            r.owner == owner,
            r.owner_secret == owner_secret,
            r.schema == schema,
    {
        DHTRecordDescriptor { key, owner, owner_secret, schema }
    }

    pub fn owner(&self) -> (r: &PublicKey)
        ensures
            r == self.owner,
    {
        &self.owner
    }

    pub fn owner_secret(&self) -> (r: &Option<SecretKey>)
        ensures
            r == self.owner_secret,
    {
        &self.owner_secret
    }

    pub fn schema(&self) -> (r: &DHTSchema)
        ensures
            r == self.schema,
    {
        &self.schema
    }
}

} // verus!

