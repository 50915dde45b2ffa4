use taygedo::protocol::{
    aes_ecb_base64, form_encode, form_encode_pairs, hkdf_sha256, hmac_sha256, laohu_base_params,
    make_ds, make_nonce, md5_hex, random_hex_32, sign, signed_body, LaohuProfile, ParamMap,
};

fn profile() -> LaohuProfile {
    LaohuProfile {
        app_id: "10001".to_string(),
        channel_id: "1".to_string(),
        device_model: "Pixel 8".to_string(),
        device_sys: "14".to_string(),
        sdk_version: "5.0".to_string(),
        version_code: "42".to_string(),
    }
}

#[test]
fn md5_hex_matches_known_digest() {
    assert_eq!(md5_hex("abc"), "900150983cd24fb0d6963f7d28e17f72");
}

#[test]
fn sign_joins_values_in_key_order() {
    let m = ParamMap::from_pairs(&[("b", "2"), ("a", "1")]);
    assert_eq!(sign(&m, "s"), "d084dd881a190aa5ffdf0ce21cff9509");
}

#[test]
fn signed_body_leaves_out_empty_values() {
    let m = ParamMap::from_pairs(&[("b", ""), ("a", "1")]);
    assert_eq!(signed_body(m, "s", false), "a=1&sign=0cf81f9038402e85910cfad17d0051b3");
    let m2 = ParamMap::from_pairs(&[("b", ""), ("a", "1")]);
    assert_eq!(signed_body(m2, "s", true), "a=1&b=&sign=0cf81f9038402e85910cfad17d0051b3");
}

#[test]
fn param_map_last_value_wins_and_keys_sorted() {
    let mut m = ParamMap::from_pairs(&[("z", "1"), ("a", "2"), ("z", "3")]);
    assert_eq!(m.len(), 2);
    assert_eq!(m.get("z"), Some("3".to_string()));
    m.set("m", "x");
    assert_eq!(form_encode(&m, true), "a=2&m=x&z=3");
    m.remove("a");
    assert_eq!(m.get("a"), None);
    assert_eq!(form_encode(&m, true), "m=x&z=3");
    m.retain_value("3");
    assert_eq!(form_encode(&m, true), "z=3");
}

#[test]
fn form_encoding_escapes_reserved_characters() {
    assert_eq!(form_encode_pairs(&[("a b", "x&y"), ("k", "é")]), "a+b=x%26y&k=%C3%A9");
}

#[test]
fn ds_header_formula() {
    assert_eq!(
        make_ds(1700000000, "abcdefgh", "1.0.0", "SECRET"),
        "1700000000,abcdefgh,78c65dc4a0307e93023349956b4dfdf5"
    );
}

#[test]
fn nonce_is_eight_alphanumerics() {
    let n = make_nonce();
    assert_eq!(n.len(), 8);
    assert!(n.chars().all(|c| c.is_ascii_alphanumeric()));
}

#[test]
fn aes_ecb_uses_last_sixteen_bytes_of_secret() {
    assert_eq!(aes_ecb_base64("hello", "XXXX0123456789abcdef"), "Z0x+8454yr2c7JwSWCOmOQ==");
}

#[test]
fn laohu_base_params_by_version_field() {
    let p = profile();
    let a = laohu_base_params(&p, "dev", "123", "versionCode");
    assert_eq!(a.get("versionCode"), Some("42".to_string()));
    assert_eq!(a.get("imei"), Some(String::new()));
    assert_eq!(a.get("version"), None);
    assert_eq!(a.get("deviceName"), Some("Pixel 8".to_string()));
    assert_eq!(a.len(), 14);
    let b = laohu_base_params(&p, "dev", "123", "version");
    assert_eq!(b.get("version"), Some("42".to_string()));
    assert_eq!(b.get("mac"), Some(String::new()));
    assert_eq!(b.get("t"), Some("123".to_string()));
}

#[test]
fn hmac_sha256_rfc4231_case1() {
    let key = [0x0bu8; 20];
    let mac = hmac_sha256(&key, b"Hi There");
    let hex: String = mac.iter().map(|b| format!("{:02x}", b)).collect();
    assert_eq!(hex, "b0344c61d8db38535ca8afceaf0bf12b881dc200c9833da726e9376c2e32cff7");
}

#[test]
fn hkdf_sha256_rfc5869_case1() {
    let ikm = [0x0bu8; 22];
    let salt: Vec<u8> = (0u8..=0x0c).collect();
    let info: Vec<u8> = (0xf0u8..=0xf9).collect();
    let okm = hkdf_sha256(&ikm, &salt, &info, 42);
    let hex: String = okm.iter().map(|b| format!("{:02x}", b)).collect();
    assert_eq!(
        hex,
        "3cb25f25faacd57a90434f64d0362f2a2d2d0a90cf1a5a4c5db02d56ecc4c5bf34007208d5b887185865"
    );
}

#[test]
fn device_id_is_32_hex_digits() {
    let d = random_hex_32();
    assert_eq!(d.len(), 32);
    assert!(d.chars().all(|c| c.is_ascii_hexdigit()));
}
