use samples::aes256::{decrypt, decrypt_checked, encrypt, generate_secret, read_secret, SecretError};

fn secret() -> Vec<u8> {
    (0u8..48).collect()
}

#[test]
fn encryption_round_trips() {
    let s = secret();
    let c = encrypt(&s, b"hello").ok().unwrap();
    assert_eq!(c.len(), 16);
    assert_ne!(&c[..], b"hello");
    assert_eq!(decrypt(&s, &c).ok().unwrap(), b"hello".to_vec());
    let c16 = encrypt(&s, &[7u8; 16]).ok().unwrap();
    assert_eq!(c16.len(), 32);
    assert_eq!(decrypt(&s, &c16).ok().unwrap(), vec![7u8; 16]);
    let empty = encrypt(&s, b"").ok().unwrap();
    assert_eq!(empty.len(), 16);
    assert_eq!(decrypt(&s, &empty).ok().unwrap(), Vec::<u8>::new());
}

#[test]
fn secrets_split_into_key_and_vector() {
    let mut s = secret();
    s.extend_from_slice(b"ignored");
    let (key, iv) = read_secret(&s).ok().unwrap();
    assert_eq!(key, (0u8..32).collect::<Vec<u8>>());
    assert_eq!(iv, (32u8..48).collect::<Vec<u8>>());
    assert!(matches!(read_secret(&[0u8; 47]), Err(SecretError::TooShort)));
    assert!(matches!(encrypt(&[0u8; 10], b"x"), Err(SecretError::TooShort)));
}

#[test]
fn malformed_ciphertexts_are_reported() {
    let s = secret();
    assert!(decrypt_checked(&s, &[1u8; 15]).is_none());
    assert!(decrypt_checked(&s, b"").is_none());
    let c = encrypt(&s, b"data").ok().unwrap();
    assert_eq!(decrypt_checked(&s, &c).unwrap().ok().unwrap(), b"data".to_vec());
    assert!(matches!(decrypt_checked(&[0u8; 3], &c), Some(Err(SecretError::TooShort))));
}

#[test]
fn generated_secrets_hold_key_and_vector() {
    let a = generate_secret();
    assert_eq!(a.len(), 48);
    let b = generate_secret();
    assert_ne!(a, b);
}
