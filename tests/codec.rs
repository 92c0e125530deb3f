use fileshare_core::codec::{
    decrypt_data, encrypt_data, generate_encryption_key, seal_with_nonce, CodecError, NONCE_LEN,
    TAG_LEN,
};

fn sample(n: usize) -> Vec<u8> {
    (0..n).map(|i| (i * 7 + 3) as u8).collect()
}

#[test]
fn key_is_the_shared_secret() {
    assert_eq!(&generate_encryption_key(), b"FileShareProSecureKey12345678!6!");
}

#[test]
fn encrypt_then_decrypt_gives_back_the_plaintext() {
    let key = generate_encryption_key();
    for n in [0usize, 1, 15, 16, 64, 1000, 8193] {
        let p = sample(n);
        let blob = encrypt_data(&p, &key).unwrap();
        assert_eq!(blob.len(), NONCE_LEN + n + TAG_LEN);
        assert_eq!(decrypt_data(&blob, &key).unwrap(), p);
    }
}

#[test]
fn ciphertext_differs_from_plaintext() {
    let key = generate_encryption_key();
    let p = b"attack at dawn, bring the files".to_vec();
    let nonce = [9u8; 12];
    let blob = seal_with_nonce(&p, &key, &nonce).unwrap();
    assert_eq!(&blob[..12], &nonce);
    assert_ne!(&blob[12..12 + p.len()], &p[..]);
    assert_eq!(seal_with_nonce(&p, &key, &nonce).unwrap(), blob);
    assert_eq!(decrypt_data(&blob, &key).unwrap(), p);
}

#[test]
fn flipping_any_bit_is_detected() {
    let key = generate_encryption_key();
    let p = sample(40);
    let blob = encrypt_data(&p, &key).unwrap();
    for byte in 0..blob.len() {
        for bit in 0..8 {
            let mut t = blob.clone();
            t[byte] ^= 1 << bit;
            assert_eq!(decrypt_data(&t, &key), Err(CodecError::Authentication));
        }
    }
}

#[test]
fn wrong_key_is_rejected() {
    let key = generate_encryption_key();
    let blob = encrypt_data(b"hello", &key).unwrap();
    let mut other = key;
    other[0] ^= 0x55;
    assert_eq!(decrypt_data(&blob, &other), Err(CodecError::Authentication));
}

#[test]
fn short_blob_is_malformed() {
    let key = generate_encryption_key();
    assert_eq!(decrypt_data(&[], &key), Err(CodecError::Malformed));
    assert_eq!(decrypt_data(&[0u8; 11], &key), Err(CodecError::Malformed));
    assert_eq!(decrypt_data(&[0u8; 12], &key), Err(CodecError::Authentication));
    assert_eq!(decrypt_data(&[0u8; 27], &key), Err(CodecError::Authentication));
}

#[test]
fn nonces_are_fresh_on_every_call() {
    let key = generate_encryption_key();
    let p = b"same plaintext".to_vec();
    let mut seen: Vec<Vec<u8>> = Vec::new();
    for _ in 0..500 {
        let blob = encrypt_data(&p, &key).unwrap();
        let nonce = blob[..12].to_vec();
        assert!(!seen.contains(&nonce));
        seen.push(nonce);
    }
    let a = encrypt_data(&p, &key).unwrap();
    let b = encrypt_data(&p, &key).unwrap();
    assert_ne!(a[..12], b[..12]);
    assert_ne!(a, b);
}
