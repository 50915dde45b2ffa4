use taygedo::login::{gen_account_id, gen_account_name, generate_device_identity, is_maskable, mask_phone_text};
use taygedo::models::{default_lan_cidrs, Config, KeyRing};
use taygedo::time::{log_ts, normalize_hhmm, shanghai_date, shanghai_datetime, shanghai_hhmm, valid_hhmm};

#[test]
fn normalize_hhmm_pads_and_checks() {
    assert_eq!(normalize_hhmm("6:5"), Some("06:05".to_string()));
    assert_eq!(normalize_hhmm(" 23 : 59 "), Some("23:59".to_string()));
    assert_eq!(normalize_hhmm("24:00"), None);
    assert_eq!(normalize_hhmm("12:60"), None);
    assert_eq!(normalize_hhmm(""), None);
    assert_eq!(normalize_hhmm("1200"), None);
}

#[test]
fn normalized_time_is_a_fixed_point() {
    let n = normalize_hhmm("7:3").unwrap();
    assert_eq!(normalize_hhmm(&n), Some(n.clone()));
}

#[test]
fn normalized_text_order_is_time_order() {
    let a = normalize_hhmm("9:30").unwrap();
    let b = normalize_hhmm("10:05").unwrap();
    assert!(a < b);
}

#[test]
fn valid_hhmm_needs_two_digit_fields() {
    assert!(valid_hhmm("06:10"));
    assert!(valid_hhmm("23:59"));
    assert!(!valid_hhmm("6:10"));
    assert!(!valid_hhmm("24:00"));
    assert!(!valid_hhmm("06:60"));
    assert!(!valid_hhmm("06-10"));
}

#[test]
fn valid_hhmm_refuses_signs_and_spaces() {
    assert!(!valid_hhmm("+1:00"));
    assert!(!valid_hhmm("01:+5"));
    assert!(!valid_hhmm(" 1:00"));
    assert!(valid_hhmm("00:00"));
}

#[test]
fn shanghai_formats() {
    let dt = shanghai_datetime();
    assert_eq!(dt.len(), 25);
    assert!(dt.ends_with("+08:00"));
    assert_eq!(shanghai_date().len(), 10);
    assert_eq!(shanghai_hhmm().len(), 5);
    let ts = log_ts();
    assert_eq!(ts.len(), 19);
    assert_eq!(&ts[4..5], "/");
}

#[test]
fn phone_masking() {
    assert_eq!(mask_phone_text("13812345678"), "138****5678");
    assert_eq!(mask_phone_text("12345"), "12345");
    assert_eq!(gen_account_name("13812345678"), "账号 138****5678");
}

#[test]
fn identities_have_expected_shape() {
    let d = generate_device_identity();
    assert_eq!(d.device_id.len(), 32);
    assert_eq!(d.openudid.len(), 36);
    assert_eq!(d.openudid, d.openudid.to_uppercase());
    let id = gen_account_id();
    assert!(id.starts_with("acc"));
    assert_eq!(id.len(), 11);
}

#[test]
fn config_defaults() {
    let c = Config::new_default();
    assert_eq!(c.default_schedule, "06:10");
    assert_eq!(c.crypto_policy, "auto");
    assert!(c.lan_no_auth);
    assert_eq!(c.lan_cidrs, default_lan_cidrs());
    assert_eq!(c.max_retries, 3);
    assert!(!c.credential_key.is_empty());
}

#[test]
fn keyring_secret_reads_back() {
    let k = KeyRing::generate();
    assert_eq!(k.version, 1);
    let s = k.secret_bytes().unwrap();
    assert_eq!(s.len(), 32);
    let bad = KeyRing {
        version: 1,
        identity_secret: "short".to_string(),
        created_at: String::new(),
        generation: 1,
    };
    assert!(bad.secret_bytes().is_err());
}

#[test]
fn maskable_phone_numbers() {
    assert!(is_maskable("13812345678"));
    assert!(is_maskable("短"));
    assert!(!is_maskable("电话号码很长"));
}

#[test]
fn device_uuids_are_upper_v4() {
    let d = generate_device_identity();
    for u in [&d.openudid, &d.vendorid] {
        let c: Vec<char> = u.chars().collect();
        assert_eq!(c.len(), 36);
        for (i, ch) in c.iter().enumerate() {
            if [8, 13, 18, 23].contains(&i) {
                assert_eq!(*ch, '-');
            } else {
                assert!(ch.is_ascii_digit() || ('A'..='F').contains(ch));
            }
        }
        assert_eq!(c[14], '4');
        assert!(['8', '9', 'A', 'B'].contains(&c[19]));
    }
    assert_eq!(Config::new_default().credential_key.len(), 43);
}
