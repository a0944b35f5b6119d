//! Envelope and receipt round trips with the real crypto crates linked.

use veilid_core::crypto::{compute_dh, generate_hash, generate_keypair, random_nonce,
    validate_keypair};
use veilid_core::crypto_types::{vld0_kind, CryptoKey, Nonce};
use veilid_core::envelope::Envelope;
use veilid_core::receipt::Receipt;

fn fixed_nonce() -> Nonce {
    let mut bytes = [0u8; 24];
    let mut i = 0;
    while i < 24 {
        bytes[i] = 0xa0 ^ (i as u8);
        i += 1;
    }
    Nonce { bytes }
}

#[test]
fn envelope_round_trip() {
    let sender = generate_keypair();
    let recipient = generate_keypair();
    let nonce = random_nonce();
    let envelope = Envelope::new(
        1,
        vld0_kind(),
        0x12345678ABCDEF69,
        nonce,
        sender.key,
        recipient.key,
    );
    let body: Vec<u8> = b"This is an arbitrary body".to_vec();

    let enc_data = envelope
        .to_encrypted_data(&body, &sender.secret)
        .expect("seal should succeed");

    let envelope2 = Envelope::from_signed_data(&enc_data).expect("parse should succeed");
    assert_eq!(envelope, envelope2);
    assert_eq!(envelope2.get_timestamp(), 0x12345678ABCDEF69);

    let body2 = envelope2
        .decrypt_body(&enc_data, &recipient.secret)
        .expect("decrypt should succeed");
    assert_eq!(body, body2);
}

#[test]
fn envelope_rejects_flipped_signature_bit() {
    let sender = generate_keypair();
    let recipient = generate_keypair();
    let envelope = Envelope::new(
        1,
        vld0_kind(),
        0x12345678ABCDEF69,
        random_nonce(),
        sender.key,
        recipient.key,
    );
    let body: Vec<u8> = b"This is an arbitrary body".to_vec();
    let enc_data = envelope.to_encrypted_data(&body, &sender.secret).unwrap();

    let n = enc_data.len();
    let mut mod_enc_data = enc_data.clone();
    mod_enc_data[n - 1] ^= 0x80;
    assert!(Envelope::from_signed_data(&mod_enc_data).is_err());

    let mut mod_enc_data2 = enc_data.clone();
    mod_enc_data2[n - 65] ^= 0x80;
    assert!(Envelope::from_signed_data(&mod_enc_data2).is_err());
}

#[test]
fn envelope_rejects_short_data() {
    let data: Vec<u8> = vec![1u8; 100];
    assert!(Envelope::from_signed_data(&data).is_err());
}

#[test]
fn receipt_round_trip() {
    let sender = generate_keypair();
    let nonce = fixed_nonce();
    let extra: Vec<u8> = vec![0x42u8; 25];
    let receipt = Receipt::try_new(1, 0, nonce, sender.key, extra).expect("should build");

    let enc_data = receipt.to_signed_data(&sender.secret);
    let receipt2 = Receipt::from_signed_data(&enc_data).expect("parse should succeed");
    assert_eq!(receipt, receipt2);
}

#[test]
fn receipt_rejects_changed_byte() {
    let sender = generate_keypair();
    let receipt =
        Receipt::try_new(1, 0, fixed_nonce(), sender.key, vec![0x42u8; 25]).expect("should build");
    let mut enc_data = receipt.to_signed_data(&sender.secret);
    // byte 5 sits inside the nonce, which the signature covers, and the
    // fixed nonce differs from 0x01 there
    enc_data[5] = 0x01;
    assert!(Receipt::from_signed_data(&enc_data).is_err());
}

#[test]
fn receipt_rejects_oversized_extra() {
    let sender = generate_keypair();
    let r = Receipt::try_new(1, 0, fixed_nonce(), sender.key, vec![0u8; 70000]);
    assert!(r.is_err());
}

#[test]
fn keypair_validates_and_dh_agrees() {
    let a = generate_keypair();
    let b = generate_keypair();
    assert!(validate_keypair(&a.key, &a.secret));
    assert!(!validate_keypair(&a.key, &b.secret));

    let ss1 = compute_dh(&b.key, &a.secret).expect("valid key");
    let ss2 = compute_dh(&a.key, &b.secret).expect("valid key");
    assert_eq!(ss1, ss2);

    let bad = CryptoKey { bytes: [0xffu8; 32] };
    let _ = compute_dh(&bad, &a.secret);
}

#[test]
fn hash_is_deterministic_and_input_sensitive() {
    let a: Vec<u8> = b"some record identity".to_vec();
    let b: Vec<u8> = b"some other identity".to_vec();
    let h1 = generate_hash(&a);
    let h2 = generate_hash(&a);
    let h3 = generate_hash(&b);
    assert_eq!(h1, h2);
    assert_ne!(h1, h3);
    // the digest is not the input itself
    assert_ne!(h1.bytes[..a.len().min(32)], a[..a.len().min(32)]);
}

#[test]
fn proved_round_trips_run() {
    let sender = generate_keypair();
    let recipient = generate_keypair();
    let envelope = Envelope::new(
        1,
        vld0_kind(),
        77,
        random_nonce(),
        sender.key,
        recipient.key,
    );
    let body: Vec<u8> = b"proved end to end".to_vec();
    let (env2, body2) = envelope
        .round_trip(&body, &sender, &recipient)
        .expect("sealing succeeds for valid keys");
    assert_eq!(env2, envelope);
    assert_eq!(body2, body);

    let receipt =
        Receipt::try_new(1, 3, fixed_nonce(), sender.key, vec![9u8; 4]).expect("should build");
    let rc2 = receipt.round_trip(&sender).expect("signing succeeds");
    assert_eq!(rc2, receipt);
    // the wrong keypair is refused before anything is signed
    assert!(receipt.round_trip(&recipient).is_none());
}
