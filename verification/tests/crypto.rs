use sha2::{Digest, Sha256};
use neural_swarm_ai::crypto::{
    compress, decompress, decrypt, decrypt_with_aad, derive_session_key, encrypt, encrypt_with_aad,
    generate_ecdh_keys, generate_nonce, sign_hmac, verify_hmac,
};

#[test]
fn test_valid_hmac() {
    let secret = "super_secret_token";
    let nonce = generate_nonce();

    let hash = sign_hmac(&nonce, secret);
    assert!(verify_hmac(&nonce, secret, &hash));
}

#[test]
fn test_ecdh_handshake() {
    let salt = b"handshake-salt";
    let (s1, p1) = generate_ecdh_keys();
    let (s2, p2) = generate_ecdh_keys();

    let k1 = derive_session_key(&s1, &p2, salt);
    let k2 = derive_session_key(&s2, &p1, salt);

    assert_eq!(k1, k2);
}

#[test]
fn test_encryption_with_aad() {
    let key = [0u8; 32];
    let data = b"Sensitive Data";
    let aad = b"task-123";

    let encrypted = encrypt_with_aad(data, &key, aad).unwrap();

    // Decrypt with correct AAD
    let decrypted = decrypt_with_aad(&encrypted, &key, aad).unwrap();
    assert_eq!(data, decrypted.as_slice());

    // Decrypt with WRONG AAD (should fail)
    let failed = decrypt_with_aad(&encrypted, &key, b"wrong-task");
    assert!(failed.is_err());
}

#[test]
fn test_compression_roundtrip() {
    let data = b"Hello world! NeuralSwarmAI is awesome. ".repeat(10);
    let compressed = compress(&data).unwrap();
    let decompressed = decompress(&compressed).unwrap();
    assert_eq!(data, decompressed.as_slice());
    assert!(compressed.len() < data.len());
}

#[test]
fn hmac_rejects_wrong_secret_and_truncated_tag() {
    let nonce = [7u8; 32];
    let tag = sign_hmac(&nonce, "secret-a");
    assert_eq!(tag.len(), 32);
    assert!(!verify_hmac(&nonce, "secret-b", &tag));
    assert!(!verify_hmac(&nonce, "secret-a", &tag[..16]));
    // the tag depends on the nonce
    assert_ne!(sign_hmac(&[8u8; 32], "secret-a"), tag);
}

#[test]
fn hmac_known_value() {
    // HMAC-SHA256 under the key "Jefe" of 32 zero bytes.
    let expected: Vec<u8> = (0..32)
        .map(|i| {
            u8::from_str_radix(
                &"f1a7eb1df72d2829416527ab99cbc2804a8ffab2fbee1fd6fee843b5f0fac94f"[2 * i..2 * i + 2],
                16,
            )
            .unwrap()
        })
        .collect();
    let tag = sign_hmac(&[0u8; 32], "Jefe");
    assert_eq!(tag, expected);
    assert!(verify_hmac(&[0u8; 32], "Jefe", &expected));
}

#[test]
fn sealed_payload_layout() {
    let key = [3u8; 32];
    let sealed = encrypt_with_aad(b"abc", &key, b"t").unwrap();
    // 12-byte nonce, 3 bytes of ciphertext, 16-byte tag
    assert_eq!(sealed.len(), 12 + 3 + 16);
    // two seals of the same data differ (fresh nonces) but both open
    let sealed2 = encrypt_with_aad(b"abc", &key, b"t").unwrap();
    assert_ne!(sealed, sealed2);
    assert_eq!(decrypt_with_aad(&sealed2, &key, b"t").unwrap(), b"abc".to_vec());
}

#[test]
fn decrypt_errors() {
    let key = [1u8; 32];
    assert_eq!(
        decrypt_with_aad(&[0u8; 11], &key, b"").unwrap_err(),
        "Data too short for decryption"
    );
    let mut sealed = encrypt_with_aad(b"payload", &key, b"").unwrap();
    let last = sealed.len() - 1;
    sealed[last] ^= 1;
    assert_eq!(
        decrypt_with_aad(&sealed, &key, b"").unwrap_err(),
        "Decryption failed: aead::Error"
    );
    // a different key is refused too
    let sealed = encrypt_with_aad(b"payload", &key, b"").unwrap();
    assert!(decrypt_with_aad(&sealed, &[2u8; 32], b"").is_err());
}

#[test]
fn legacy_secret_roundtrip() {
    let sealed = encrypt(b"legacy", "shared").unwrap();
    assert_eq!(decrypt(&sealed, "shared").unwrap(), b"legacy".to_vec());
    assert!(decrypt(&sealed, "other").is_err());
}

#[test]
fn session_key_depends_on_salt() {
    let (s1, _p1) = generate_ecdh_keys();
    let (_s2, p2) = generate_ecdh_keys();
    let a = derive_session_key(&s1, &p2, b"salt-a");
    let b = derive_session_key(&s1, &p2, b"salt-b");
    assert_ne!(a, b);
}

#[test]
fn decompress_refuses_garbage() {
    assert!(decompress(b"definitely not zstd").is_err());
    let empty = compress(b"").unwrap();
    assert_eq!(decompress(&empty).unwrap(), Vec::<u8>::new());
}

#[test]
fn legacy_key_is_the_sha256_of_the_secret() {
    let sealed = encrypt(b"legacy payload", "shared").unwrap();
    let key: [u8; 32] = Sha256::digest(b"shared").into();
    assert_eq!(decrypt_with_aad(&sealed, &key, b"").unwrap(), b"legacy payload".to_vec());
    // the ciphertext is not the plaintext
    assert_ne!(&sealed[12..12 + 14], b"legacy payload");
}
