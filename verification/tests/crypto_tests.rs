use taygedo::crypto::{
    constant_time_eq, decrypt_password, encrypt_password, generate_credential_key,
    generate_passphrase, hash_password, hash_password_v2, random_hex,
};

#[test]
fn pwd_hash_v2_is_deterministic_and_salt_sensitive() {
    let h1 = hash_password_v2("s3cret", "saltA");
    let h2 = hash_password_v2("s3cret", "saltA");
    let h3 = hash_password_v2("s3cret", "saltB");
    assert_eq!(h1, h2);
    assert_ne!(h1, h3);
    assert_eq!(h1.len(), 64);
}

#[test]
fn constant_time_eq_works() {
    assert!(constant_time_eq(b"abc", b"abc"));
    assert!(!constant_time_eq(b"abc", b"abd"));
    assert!(!constant_time_eq(b"abc", b"ab"));
    assert!(constant_time_eq(b"", b""));
}

#[test]
fn passphrase_has_expected_shape() {
    let p = generate_passphrase(16);
    assert_eq!(p.len(), 16);
    assert!(p.chars().all(|c| c.is_ascii_alphanumeric()));
    assert_ne!(p, generate_passphrase(16));
}

#[test]
fn credential_roundtrip() {
    let key = generate_credential_key();
    let enc = encrypt_password("hunter2", &key);
    assert_eq!(decrypt_password(&enc, &key).unwrap(), "hunter2");
    let other = generate_credential_key();
    assert!(decrypt_password(&enc, &other).is_err());
}

#[test]
fn hash_v1_is_sha256_of_salt_colon_password() {
    assert_eq!(
        hash_password("pw", "salt"),
        "8addaf8824e9f575fd97c1867490a1f0b406ef35259a08c2d4d08a65ce255f9a"
    );
    assert_ne!(hash_password("pw", "salt"), hash_password("pw", "salt2"));
}

#[test]
fn hash_v2_is_scrypt_hex() {
    assert_eq!(
        hash_password_v2("s3cret", "saltA"),
        "ff7992b829fd4bc45f35027b9e483d444802d277763f6969646a443e2546faf1"
    );
}

#[test]
fn passphrase_avoids_confusable_characters() {
    for _ in 0..20 {
        let p = generate_passphrase(32);
        assert_eq!(p.chars().count(), 32);
        assert!(p.chars().all(|c| !"0O1lI".contains(c)));
    }
}

#[test]
fn random_hex_has_two_digits_per_byte() {
    let h = random_hex(16);
    assert_eq!(h.len(), 32);
    assert!(h.chars().all(|c| c.is_ascii_hexdigit() && !c.is_ascii_uppercase()));
}

#[test]
fn encrypted_password_uses_scrypt_format() {
    let key = generate_credential_key();
    let enc = encrypt_password("pässwörd", &key);
    assert_eq!(enc.alg, "AES-256-GCM");
    assert_eq!(enc.v, 2);
    assert_eq!(decrypt_password(&enc, &key).unwrap(), "pässwörd");
}

#[test]
fn unsupported_algorithm_is_refused() {
    let key = generate_credential_key();
    let mut enc = encrypt_password("x", &key);
    enc.alg = "ROT13".to_string();
    assert_eq!(decrypt_password(&enc, &key).unwrap_err(), "不支持的加密密码格式");
}

fn lower_hex(s: &str) -> bool {
    s.chars().all(|c| c.is_ascii_digit() || ('a'..='f').contains(&c))
}

#[test]
fn password_hashes_are_64_lowercase_hex() {
    let v1 = hash_password("pw", "salt");
    let v2 = hash_password_v2("pw", "salt");
    assert_eq!(v1.len(), 64);
    assert_eq!(v2.len(), 64);
    assert!(lower_hex(&v1) && lower_hex(&v2));
    let r = random_hex(5);
    assert_eq!(r.len(), 10);
    assert!(lower_hex(&r));
}
