use frodo_kem::kem::{CIPHERTEXT_BYTES, PUBLIC_KEY_BYTES, SECRET_KEY_BYTES};
use frodo_kem::{Ciphertext, Frodo, FrodoError, Matrix, PublicKey, SecretKey};

#[test]
fn sizes_of_keys_and_ciphertext() {
    let frodo = Frodo::default();
    let (pk, sk) = frodo.keygen();
    assert_eq!(pk.serialize().len(), 10272);
    assert_eq!(sk.serialize().len(), 10240);
    let (ct, message) = frodo.encaps(&pk);
    assert_eq!(ct.serialize().len(), 10368);
    assert_eq!(message.len(), 32);
    assert_eq!(PUBLIC_KEY_BYTES, 10272);
    assert_eq!(SECRET_KEY_BYTES, 10240);
    assert_eq!(CIPHERTEXT_BYTES, 10368);
}

#[test]
fn key_and_ciphertext_round_trip() {
    let frodo = Frodo::default();
    let (pk, sk) = frodo.keygen_from_seeds(&[1u8; 32], &[2u8; 32]);
    let pk_bytes = pk.serialize();
    assert_eq!(&pk_bytes[..32], &[1u8; 32]);
    assert_eq!(PublicKey::deserialize(&pk_bytes).unwrap().serialize(), pk_bytes);
    let sk_bytes = sk.serialize();
    assert_eq!(SecretKey::deserialize(&sk_bytes).unwrap().serialize(), sk_bytes);
    let ct = frodo.encaps_from_seeds(&pk, &[7u8; 32], &[3u8; 32]);
    let ct_bytes = ct.serialize();
    assert_eq!(Ciphertext::deserialize(&ct_bytes).unwrap().serialize(), ct_bytes);
}

#[test]
fn deserialize_ignores_trailing_bytes() {
    let frodo = Frodo::default();
    let (pk, _) = frodo.keygen_from_seeds(&[4u8; 32], &[5u8; 32]);
    let mut bytes = pk.serialize();
    bytes.extend_from_slice(&[1, 2, 3]);
    assert_eq!(PublicKey::deserialize(&bytes).unwrap().serialize(), pk.serialize());
}

#[test]
fn short_buffers_are_rejected() {
    assert_eq!(
        PublicKey::deserialize(&vec![0u8; PUBLIC_KEY_BYTES - 1]).err(),
        Some(FrodoError::DeserializationError("Invalid public key size".to_string()))
    );
    assert_eq!(
        SecretKey::deserialize(&vec![0u8; SECRET_KEY_BYTES - 1]).err(),
        Some(FrodoError::DeserializationError("Not enough data".to_string()))
    );
    assert_eq!(
        Ciphertext::deserialize(&vec![0u8; CIPHERTEXT_BYTES - 1]).err(),
        Some(FrodoError::DeserializationError("Invalid ciphertext size".to_string()))
    );
    assert!(PublicKey::deserialize(&vec![0u8; PUBLIC_KEY_BYTES]).is_ok());
    assert!(SecretKey::deserialize(&vec![0u8; SECRET_KEY_BYTES]).is_ok());
    assert!(Ciphertext::deserialize(&vec![0u8; CIPHERTEXT_BYTES]).is_ok());
}

#[test]
fn keygen_from_seeds_is_deterministic() {
    let frodo = Frodo::default();
    let (pk1, sk1) = frodo.keygen_from_seeds(&[8u8; 32], &[9u8; 32]);
    let (pk2, sk2) = frodo.keygen_from_seeds(&[8u8; 32], &[9u8; 32]);
    assert_eq!(pk1.serialize(), pk2.serialize());
    assert_eq!(sk1.serialize(), sk2.serialize());
}

#[test]
fn secret_key_is_transposed_noise() {
    let frodo = Frodo::default();
    let (_, sk) = frodo.keygen_from_seeds(&[8u8; 32], &[9u8; 32]);
    let s = frodo.generate_noise(640, 8, &[9u8; 32], 0);
    assert_eq!(sk.serialize(), s.transpose().serialize());
}

#[test]
fn encode_places_bytes_then_zeros() {
    let frodo = Frodo::default();
    let m = frodo.encode(&[1, 2, 255]);
    assert_eq!(m.get(0, 0), 1);
    assert_eq!(m.get(0, 1), 2);
    assert_eq!(m.get(0, 2), 255);
    assert_eq!(m.get(0, 3), 0);
    assert_eq!(m.get(7, 7), 0);
    let full = frodo.encode(&[6u8; 100]);
    assert_eq!(full.get(7, 7), 6);
}

#[test]
fn decode_takes_low_bytes_of_first_entries() {
    let frodo = Frodo::default();
    let mut m = Matrix::new(8, 8);
    m.set(0, 0, -1);
    m.set(0, 1, 0x1234);
    m.set(3, 7, 5);
    m.set(4, 0, 9);
    let out = frodo.decode(&m);
    assert_eq!(out.len(), 32);
    assert_eq!(out[0], 0xFF);
    assert_eq!(out[1], 0x34);
    assert_eq!(out[31], 5);
}

#[test]
fn decode_inverts_encode() {
    let frodo = Frodo::default();
    let message: Vec<u8> = (0..32).map(|k| (k * 7 + 3) as u8).collect();
    assert_eq!(frodo.decode(&frodo.encode(&message)), message);
}

#[test]
fn encaps_from_seeds_is_deterministic() {
    let frodo = Frodo::default();
    let (pk, _) = frodo.keygen_from_seeds(&[1u8; 32], &[2u8; 32]);
    let c1 = frodo.encaps_from_seeds(&pk, &[7u8; 32], &[3u8; 32]);
    let c2 = frodo.encaps_from_seeds(&pk, &[7u8; 32], &[3u8; 32]);
    assert_eq!(c1.serialize(), c2.serialize());
    let c3 = frodo.encaps_from_seeds(&pk, &[8u8; 32], &[3u8; 32]);
    assert_ne!(c1.serialize(), c3.serialize());
}

#[test]
fn end_to_end_agreement_rate() {
    // The byte-per-entry encoding has no error correction, so agreement is
    // measured rather than assumed.
    let frodo = Frodo::default();
    let mut agreed = 0;
    let trials = 2;
    for _ in 0..trials {
        let (pk, sk) = frodo.keygen();
        let (ct, ss1) = frodo.encaps(&pk);
        let ss2 = frodo.decaps(&sk, &ct);
        assert_eq!(ss1.len(), 32);
        assert_eq!(ss2.len(), 32);
        assert_eq!(frodo.decaps(&sk, &ct), ss2);
        if ss1 == ss2 {
            agreed += 1;
        }
    }
    println!("agreement: {} of {}", agreed, trials);
}
