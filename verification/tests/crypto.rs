use pswd::crypto::{
    decode_b64, decrypt_password, derive_kek, encode_b64, encrypt_password, encrypt_with,
    generate_salt, legacy_xor_decode, legacy_xor_encode, machine_code, machine_code_from, open,
    seal, seal_with, unwrap_key, unwrap_with, wrap_key, wrap_with, write_blob, write_wrapped,
    CryptoError, DeriveError, VaultKey, KEY_LEN, NONCE_LEN, SALT_LEN, TAG_LEN,
};

#[test]
fn wrap_unwrap_roundtrip() {
    let vault_key = VaultKey::generate();
    let salt = generate_salt();
    let wrapped = wrap_key(b"master-password", vault_key.as_bytes(), &salt).unwrap();
    let key = unwrap_key(b"master-password", &wrapped).unwrap();
    assert_eq!(key, *vault_key.as_bytes());
}

#[test]
fn unwrap_with_wrong_secret_fails() {
    let vault_key = VaultKey::generate();
    let salt = generate_salt();
    let wrapped = wrap_key(b"right-password", vault_key.as_bytes(), &salt).unwrap();
    let err = unwrap_key(b"wrong-password", &wrapped).unwrap_err();
    assert!(matches!(err, CryptoError::WrongSecret));
}

#[test]
fn password_encrypt_decrypt_roundtrip() {
    let key = VaultKey::generate();
    let blob = encrypt_password(&key, "P@ssw0rd 中文!").unwrap();
    assert!(!blob.contains("P@ssw0rd"), "密文不应包含明文");
    assert_eq!(decrypt_password(&key, &blob).unwrap(), "P@ssw0rd 中文!");
}

#[test]
fn password_decrypt_with_wrong_key_fails() {
    let k1 = VaultKey::generate();
    let k2 = VaultKey::generate();
    let blob = encrypt_password(&k1, "secret").unwrap();
    assert!(matches!(
        decrypt_password(&k2, &blob).unwrap_err(),
        CryptoError::WrongSecret
    ));
}

#[test]
fn decrypt_corrupted_blob_fails_gracefully() {
    let key = VaultKey::generate();
    assert!(matches!(
        decrypt_password(&key, "not-a-valid-blob").unwrap_err(),
        CryptoError::BadFormat(_)
    ));
    assert!(matches!(
        decrypt_password(&key, "!!!.!!!").unwrap_err(),
        CryptoError::Base64(_)
    ));
}

#[test]
fn legacy_xor_matches_original_python() {
    assert_eq!(legacy_xor_encode("123456"), "d0dQX2By");
    assert_eq!(legacy_xor_decode("d0dQX2By").unwrap(), "123456");
    assert_eq!(legacy_xor_encode("我的密码MyP@ss!"), "oP3yjM/AitrEhs/HOBo7FTccVA==");
    assert_eq!(legacy_xor_decode("oP3yjM/AitrEhs/HOBo7FTccVA==").unwrap(), "我的密码MyP@ss!");
}

#[test]
fn legacy_xor_unicode_roundtrip() {
    let s = "我的密码MyP@ss!";
    let enc = legacy_xor_encode(s);
    assert_eq!(legacy_xor_decode(&enc).unwrap(), s);
    assert!(legacy_xor_decode("!!!!").is_err());
}

#[test]
fn derive_kek_deterministic_and_distinct() {
    let salt = [7u8; SALT_LEN];
    let k1 = derive_kek(b"same", &salt).unwrap();
    let k2 = derive_kek(b"same", &salt).unwrap();
    let k3 = derive_kek(b"same", &[8u8; SALT_LEN]).unwrap();
    let k4 = derive_kek(b"other", &salt).unwrap();
    assert_eq!(k1, k2);
    assert_ne!(k1, k3);
    assert_ne!(k1, k4);
}

#[test]
fn short_salt_is_refused() {
    let err = derive_kek(b"secret", &[0u8; 7]).unwrap_err();
    assert!(matches!(err, CryptoError::Argon2(DeriveError::Refused(argon2::Error::SaltTooShort))));
    assert_eq!(err.message(), format!("密钥派生失败：{}", argon2::Error::SaltTooShort));
    let err = CryptoError::Argon2(DeriveError::OutOfMemory(argon2::Error::OutOfMemory));
    assert_eq!(err.message(), format!("密钥派生失败：{}", argon2::Error::OutOfMemory));
    let err = wrap_key(b"secret", &[1u8; KEY_LEN], &[0u8; 7]).unwrap_err();
    assert!(matches!(err, CryptoError::Argon2(_)));
    assert!(derive_kek(b"secret", &[0u8; 8]).is_ok());
}

#[test]
fn base64_is_the_standard_alphabet() {
    assert_eq!(encode_b64(b""), "");
    assert_eq!(encode_b64(b"f"), "Zg==");
    assert_eq!(encode_b64(b"fo"), "Zm8=");
    assert_eq!(encode_b64(b"foo"), "Zm9v");
    assert_eq!(encode_b64(&[0xfb, 0xff, 0xfe]), "+//+");
    assert_eq!(decode_b64("Zm9vYg==").unwrap(), b"foob");
    assert_eq!(decode_b64("").unwrap(), b"");
}

#[test]
fn base64_refuses_other_forms() {
    for s in ["Zg", "Zg=", "Zh==", "Zg==\n", "Zm9 v", "Zm8==", "=", "-_-_"] {
        assert!(matches!(decode_b64(s), Err(CryptoError::Base64(_))), "{s}");
    }
    let err = decode_b64("!").unwrap_err();
    assert!(err.message().starts_with("Base64 解码失败："));
}

#[test]
fn sealing_is_authenticated() {
    let key = [3u8; KEY_LEN];
    let nonce = [9u8; NONCE_LEN];
    let ct = seal_with(&key, &nonce, b"plain").unwrap();
    assert_eq!(ct.len(), 5 + 16);
    assert_eq!(open(&key, &nonce, &ct).unwrap(), b"plain");
    let mut bad = ct.clone();
    bad[0] ^= 1;
    assert!(matches!(open(&key, &nonce, &bad), Err(CryptoError::WrongSecret)));
    assert!(matches!(open(&[4u8; KEY_LEN], &nonce, &ct), Err(CryptoError::WrongSecret)));
    assert!(matches!(open(&key, &[8u8; NONCE_LEN], &ct), Err(CryptoError::WrongSecret)));
}

#[test]
fn sealing_matches_a_known_vector() {
    // AES-256-GCM with an all-zero key and nonce over sixteen zero bytes.
    let ct = seal_with(&[0u8; KEY_LEN], &[0u8; NONCE_LEN], &[0u8; 16]).unwrap();
    let expected: [u8; 32] = [
        0xce, 0xa7, 0x40, 0x3d, 0x4d, 0x60, 0x6b, 0x6e, 0x07, 0x4e, 0xc5, 0xd3, 0xba, 0xf3, 0x9d,
        0x18, 0xd0, 0xd1, 0xc8, 0xa7, 0x99, 0x99, 0x6b, 0xf0, 0x26, 0x5b, 0x98, 0xb5, 0xd4, 0x8a,
        0xb9, 0x19,
    ];
    assert_eq!(ct, expected);
}

#[test]
fn nonces_and_salts_are_fresh() {
    let key = [3u8; KEY_LEN];
    let (n1, c1) = seal(&key, b"same").unwrap();
    let (n2, c2) = seal(&key, b"same").unwrap();
    assert_ne!(n1, n2);
    assert_ne!(c1, c2);
    assert_ne!(generate_salt(), generate_salt());
    assert_ne!(VaultKey::generate().as_bytes(), VaultKey::generate().as_bytes());
}

#[test]
fn nonce_of_another_length_is_refused() {
    let key = [3u8; KEY_LEN];
    assert!(matches!(open(&key, &[0u8; 11], &[0u8; 20]), Err(CryptoError::BadFormat(_))));
    let blob = write_blob(&[0u8; 11], &[0u8; 20]);
    assert!(matches!(
        decrypt_password(&VaultKey::from_bytes(key), &blob),
        Err(CryptoError::BadFormat(_))
    ));
}

#[test]
fn wrapped_text_has_three_parts() {
    let text = write_wrapped(b"saltsalt", b"nonce", b"ct");
    assert_eq!(text, "c2FsdHNhbHQ=.bm9uY2U=.Y3Q=");
    assert_eq!(write_blob(b"nonce", b"ct"), "bm9uY2U=.Y3Q=");
    assert!(matches!(unwrap_key(b"s", "a.b"), Err(CryptoError::BadFormat(_))));
    assert!(matches!(unwrap_key(b"s", "a.b.c.d"), Err(CryptoError::BadFormat(_))));
    assert!(matches!(unwrap_key(b"s", "?.?.?"), Err(CryptoError::Base64(_))));
}

#[test]
fn wrapping_under_a_given_nonce_is_determined() {
    let kek = [1u8; KEY_LEN];
    let key = [2u8; KEY_LEN];
    let salt = [5u8; SALT_LEN];
    let nonce = [6u8; NONCE_LEN];
    let a = wrap_with(&kek, &nonce, &key, &salt).unwrap();
    assert_eq!(a, wrap_with(&kek, &nonce, &key, &salt).unwrap());
    let parts: Vec<&str> = a.split('.').collect();
    assert_eq!(parts.len(), 3);
    assert_eq!(decode_b64(parts[0]).unwrap(), salt);
    assert_eq!(decode_b64(parts[1]).unwrap(), nonce);
    let ct = decode_b64(parts[2]).unwrap();
    assert_eq!(unwrap_with(&kek, &nonce, &ct).unwrap(), key);
    let short = seal_with(&kek, &nonce, b"not a key").unwrap();
    assert!(matches!(unwrap_with(&kek, &nonce, &short), Err(CryptoError::BadFormat(_))));
}

#[test]
fn encrypting_under_a_given_nonce_is_determined() {
    let key = VaultKey::from_bytes([2u8; KEY_LEN]);
    let nonce = [6u8; NONCE_LEN];
    let a = encrypt_with(&key, &nonce, "密码").unwrap();
    assert_eq!(a, encrypt_with(&key, &nonce, "密码").unwrap());
    assert_eq!(decrypt_password(&key, &a).unwrap(), "密码");
    assert_ne!(
        encrypt_password(&key, "密码").unwrap(),
        encrypt_password(&key, "密码").unwrap()
    );
}

#[test]
fn decrypted_bytes_must_be_text() {
    let raw = [2u8; KEY_LEN];
    let (nonce, ct) = seal(&raw, &[0xff, 0xfe]).unwrap();
    let blob = write_blob(&nonce, &ct);
    let err = decrypt_password(&VaultKey::from_bytes(raw), &blob).unwrap_err();
    assert!(matches!(err, CryptoError::BadFormat(_)));
}

#[test]
fn vault_key_keeps_its_bytes() {
    let raw = [42u8; KEY_LEN];
    assert_eq!(VaultKey::from_bytes(raw).as_bytes(), &raw);
}

#[test]
fn machine_code_passes_the_reading_on() {
    assert_eq!(machine_code_from(Ok("guid-1".to_string())).unwrap(), "guid-1");
    let err = machine_code_from(Err("no such file".to_string())).unwrap_err();
    assert_eq!(err.message(), "无法读取机器码：no such file");
    match machine_code() {
        Ok(code) => assert_eq!(machine_code().unwrap(), code),
        Err(e) => assert!(matches!(e, CryptoError::MachineId(_))),
    }
}

#[test]
fn error_messages() {
    assert_eq!(CryptoError::Aead.message(), "加解密失败");
    assert_eq!(CryptoError::WrongSecret.message(), "凭据错误或数据损坏");
    assert_eq!(CryptoError::BadFormat("x".to_string()).message(), "密文格式错误：x");
}

#[test]
fn legacy_scrambling_of_other_texts() {
    assert_eq!(legacy_xor_encode(""), "");
    assert_eq!(legacy_xor_decode("").unwrap(), "");
    // The key repeats after eleven bytes.
    let long = "0123456789abcdefghijklmnopqrstuvwxyz";
    assert_eq!(legacy_xor_decode(&legacy_xor_encode(long)).unwrap(), long);
    // A byte that, unscrambled, is no UTF-8.
    let bad = encode_b64(&[0xffu8]);
    assert!(legacy_xor_decode(&bad).is_err());
}

#[test]
fn parts_have_their_lengths() {
    let salt = generate_salt();
    let wrapped = wrap_key(b"s", &[1u8; KEY_LEN], &salt).unwrap();
    let parts: Vec<&str> = wrapped.split('.').collect();
    assert_eq!(parts.len(), 3);
    assert_eq!(parts[0], encode_b64(&salt));
    assert_eq!(decode_b64(parts[1]).unwrap().len(), NONCE_LEN);
    assert_eq!(decode_b64(parts[2]).unwrap().len(), 48);
    let plain = "P@ssw0rd 中文!";
    let blob = encrypt_password(&VaultKey::generate(), plain).unwrap();
    let parts: Vec<&str> = blob.split('.').collect();
    assert_eq!(parts.len(), 2);
    assert_eq!(decode_b64(parts[0]).unwrap().len(), NONCE_LEN);
    assert_eq!(decode_b64(parts[1]).unwrap().len(), plain.len() + TAG_LEN);
    assert!(blob.chars().all(|c| c.is_ascii_alphanumeric() || "+/=.".contains(c)));
}

#[test]
fn short_ciphertexts_are_refused() {
    let k = VaultKey::from_bytes([0u8; KEY_LEN]);
    assert!(matches!(decrypt_password(&k, "AAAA.AAAA"), Err(CryptoError::BadFormat(_))));
    assert!(matches!(
        decrypt_password(&k, "AAAAAAAAAAAAAAAA.AAAA"),
        Err(CryptoError::WrongSecret)
    ));
    assert!(matches!(
        open(&[0u8; KEY_LEN], &[0u8; NONCE_LEN], &[0u8; TAG_LEN - 1]),
        Err(CryptoError::WrongSecret)
    ));
    let empty = seal_with(&[0u8; KEY_LEN], &[0u8; NONCE_LEN], b"").unwrap();
    assert_eq!(empty.len(), TAG_LEN);
    assert_eq!(open(&[0u8; KEY_LEN], &[0u8; NONCE_LEN], &empty).unwrap(), b"");
}
