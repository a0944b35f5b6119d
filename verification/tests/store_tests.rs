//! DHT storage: schema checks, signed values, and sequence-number
//! monotonicity through the set-value flow.

use veilid_core::crypto::generate_keypair;
use veilid_core::crypto_types::vld0_kind;
use veilid_core::storage::{DHTSchema, DHTSchemaSMPLMember, LocalRecordDetail, Record,
    SetValueError, SetValueResult, SignedValueData, SignedValueDescriptor, StorageManager,
    ValueData, ValueRecord};
use veilid_core::safety::{SafetySelection, Sequencing};

#[test]
fn schema_dflt_owner_only() {
    let owner = generate_keypair();
    let other = generate_keypair();
    let schema = DHTSchema::DFLT { o_cnt: 2 };
    assert_eq!(schema.subkey_count(), 2);

    let mine = ValueData::new(vec![1, 2, 3], owner.key);
    let theirs = ValueData::new(vec![1, 2, 3], other.key);
    assert!(schema.check_subkey_value_data(&owner.key, 0, &mine));
    assert!(schema.check_subkey_value_data(&owner.key, 1, &mine));
    assert!(!schema.check_subkey_value_data(&owner.key, 2, &mine));
    assert!(!schema.check_subkey_value_data(&owner.key, 0, &theirs));
}

#[test]
fn schema_smpl_member_ranges() {
    let owner = generate_keypair();
    let m1 = generate_keypair();
    let m2 = generate_keypair();
    let schema = DHTSchema::SMPL {
        o_cnt: 1,
        members: vec![
            DHTSchemaSMPLMember { m_key: m1.key, m_cnt: 2 },
            DHTSchemaSMPLMember { m_key: m2.key, m_cnt: 1 },
        ],
    };
    assert_eq!(schema.subkey_count(), 4);

    let by_owner = ValueData::new(vec![0], owner.key);
    let by_m1 = ValueData::new(vec![0], m1.key);
    let by_m2 = ValueData::new(vec![0], m2.key);
    assert!(schema.check_subkey_value_data(&owner.key, 0, &by_owner));
    assert!(!schema.check_subkey_value_data(&owner.key, 1, &by_owner));
    assert!(schema.check_subkey_value_data(&owner.key, 1, &by_m1));
    assert!(schema.check_subkey_value_data(&owner.key, 2, &by_m1));
    assert!(!schema.check_subkey_value_data(&owner.key, 3, &by_m1));
    assert!(schema.check_subkey_value_data(&owner.key, 3, &by_m2));
    assert!(!schema.check_subkey_value_data(&owner.key, 4, &by_m2));
}

#[test]
fn signed_value_validates() {
    let writer = generate_keypair();
    let owner = generate_keypair();
    let vd = ValueData::new(vec![5, 6, 7], writer.key);
    let svd = SignedValueData::make_signature(vd, &owner.key, 3, &writer.secret);
    assert!(svd.validate(&owner.key, 3));
    // the signature covers the subkey
    assert!(!svd.validate(&owner.key, 4));
}

#[test]
fn set_value_seq_monotonic() {
    let owner = generate_keypair();
    let schema = DHTSchema::DFLT { o_cnt: 2 };
    let mut sm = StorageManager::new();
    let sig = {
        // descriptor signature: the owner signs its schema bytes
        let schema_bytes: Vec<u8> = vec![0x44, 0x46, 0x4c, 0x54, 0, 2];
        veilid_core::crypto::ed25519_sign(&owner.secret, &schema_bytes)
    };
    let schema_bytes: Vec<u8> = vec![0x44, 0x46, 0x4c, 0x54, 0, 2];
    let key = sm
        .create_record(vld0_kind(), &owner, schema, &schema_bytes, sig, 1000)
        .expect("fresh record");

    // writing needs the record opened with a writer
    assert!(matches!(
        sm.set_value(&key.value, 0, b"a".to_vec()),
        Err(SetValueError::NotOpen)
    ));
    assert!(sm.open_record_local(
        &key.value,
        None,
        SafetySelection::Unsafe(Sequencing::NoPreference)
    ));
    assert!(matches!(
        sm.set_value(&key.value, 0, b"a".to_vec()),
        Err(SetValueError::NoWriter)
    ));
    assert!(sm.open_record_local(
        &key.value,
        Some(owner),
        SafetySelection::Unsafe(Sequencing::NoPreference)
    ));

    // first write: sequence number zero, data "a"
    let s0 = sm.set_value(&key.value, 0, b"a".to_vec()).expect("first write");
    assert_eq!(s0.value_data.seq, 0);
    assert_eq!(sm.get_value_local(&key.value, 0).unwrap().value_data.seq, 0);

    // second write: the next sequence number, data "b"
    let s1 = sm.set_value(&key.value, 0, b"b".to_vec()).expect("second write");
    assert_eq!(s1.value_data.seq, 1);
    assert_eq!(sm.get_value_local(&key.value, 0).unwrap().value_data.seq, 1);
    assert_eq!(sm.get_value_local(&key.value, 0).unwrap().value_data.data, b"b".to_vec());

    // a subkey outside the schema is refused
    assert!(matches!(
        sm.set_value(&key.value, 9, b"x".to_vec()),
        Err(SetValueError::SchemaCheckFailed)
    ));

    // an older or equal sequence number is refused at the store
    let stale = ValueData::new_with_seq(1, b"x".to_vec(), owner.key);
    let s_stale = SignedValueData::make_signature(stale, &owner.key, 0, &owner.secret);
    assert!(!sm.set_value_offline(&key.value, 0, s_stale));
    assert_eq!(sm.get_value_local(&key.value, 0).unwrap().value_data.seq, 1);

    // the network returns a newer value with sequence number five, data "c":
    // it wins, is stored, and is what the caller sees
    let remote = ValueData::new_with_seq(5, b"c".to_vec(), owner.key);
    let s5 = SignedValueData::make_signature(remote, &owner.key, 0, &owner.secret);
    let out = sm
        .complete_set_value(&key.value, 0, &s1, Some(s5))
        .expect("resolved");
    match out {
        SetValueResult::Newer(v) => {
            assert_eq!(v.seq, 5);
            assert_eq!(v.data, b"c".to_vec());
        },
        SetValueResult::Stored(_) => panic!("network value was newer"),
    }
    let stored = sm.get_value_local(&key.value, 0).unwrap();
    assert_eq!(stored.value_data.seq, 5);
    assert_eq!(stored.value_data.data, b"c".to_vec());
}

#[test]
fn close_record_forgets_writer() {
    let owner = generate_keypair();
    let mut sm = StorageManager::new();
    let schema_bytes: Vec<u8> = vec![7u8];
    let sig = veilid_core::crypto::ed25519_sign(&owner.secret, &schema_bytes);
    let key = sm
        .create_record(vld0_kind(), &owner, DHTSchema::DFLT { o_cnt: 1 }, &schema_bytes, sig, 0)
        .expect("fresh record");
    assert!(sm.open_record_local(
        &key.value,
        Some(owner),
        SafetySelection::Unsafe(Sequencing::NoPreference)
    ));
    assert!(sm.set_value(&key.value, 0, b"v".to_vec()).is_ok());
    assert!(sm.close_record(&key.value));
    assert!(!sm.close_record(&key.value));
    assert!(matches!(sm.set_value(&key.value, 0, b"w".to_vec()), Err(SetValueError::NotOpen)));
}

#[test]
fn create_record_refuses_duplicate() {
    let owner = generate_keypair();
    let mut sm = StorageManager::new();
    let schema_bytes: Vec<u8> = vec![1, 2, 3];
    let sig = veilid_core::crypto::ed25519_sign(&owner.secret, &schema_bytes);
    let k1 = sm.create_record(
        vld0_kind(),
        &owner,
        DHTSchema::DFLT { o_cnt: 1 },
        &schema_bytes,
        sig,
        0,
    );
    assert!(k1.is_some());
    let sig2 = veilid_core::crypto::ed25519_sign(&owner.secret, &schema_bytes);
    let k2 = sm.create_record(
        vld0_kind(),
        &owner,
        DHTSchema::DFLT { o_cnt: 1 },
        &schema_bytes,
        sig2,
        0,
    );
    assert!(k2.is_none());
}

#[test]
fn record_bookkeeping() {
    let owner = generate_keypair();
    let sig = veilid_core::crypto::ed25519_sign(&owner.secret, &vec![1u8]);
    let descriptor = SignedValueDescriptor {
        owner: owner.key,
        schema: DHTSchema::DFLT { o_cnt: 3 },
        signature: sig,
    };
    let mut rec = Record::new(
        10,
        descriptor,
        LocalRecordDetail { safety_selection: SafetySelection::Unsafe(Sequencing::NoPreference) },
    );
    assert_eq!(rec.subkey_count(), 3);
    assert_eq!(rec.last_touched(), 10);
    assert_eq!(rec.record_data_size(), 0);
    rec.touch(25);
    assert_eq!(rec.last_touched(), 25);
    rec.set_record_data_size(100);
    // data plus owner key, signature and the schema encoding
    assert_eq!(rec.total_size(), 100 + 96 + 2);

    let mut vr = ValueRecord::new(
        5,
        Some(owner.secret),
        DHTSchema::DFLT { o_cnt: 2 },
        SafetySelection::Unsafe(Sequencing::NoPreference),
    );
    assert_eq!(vr.subkey_count(), 2);
    vr.touch(9);
    assert_eq!(vr.last_touched(), 9);
}
