use aes_gcm::aead::generic_array::GenericArray;
use aes_gcm::aead::{Aead, KeyInit, Payload};
use aes_gcm::Aes256Gcm;
use taygedo::protocol::{hkdf_sha256, x25519_diffie_hellman, x25519_generate_secret, x25519_public_from_secret};
use taygedo::session::{
    decode_envelope, decode_fixed, encode_envelope, encode_fixed, CryptoError, CryptoManager,
    HandshakeOutput, HS_MAX_PER_WINDOW,
};

fn mgr() -> CryptoManager {
    CryptoManager::new(x25519_generate_secret())
}

struct Client {
    c2s_key: [u8; 32],
    s2c_key: [u8; 32],
    c2s_prefix: Vec<u8>,
    s2c_prefix: Vec<u8>,
    next_seq: u64,
    last_resp: u64,
    sid: String,
}

fn client_handshake(client_secret: &[u8; 32], client_nonce: &[u8; 16], out: &HandshakeOutput) -> Client {
    let client_pub = x25519_public_from_secret(client_secret);
    let shared = x25519_diffie_hellman(client_secret, &out.server_pub).unwrap();
    let mut salt = Vec::new();
    salt.extend_from_slice(&client_pub);
    salt.extend_from_slice(&out.server_pub);
    salt.extend_from_slice(client_nonce);
    salt.extend_from_slice(&out.server_nonce);
    let master = hkdf_sha256(&shared, &salt, b"taygedo/v1/aead", 32);
    let c2s = hkdf_sha256(&master, &salt, b"taygedo/v1/c2s", 32);
    let s2c = hkdf_sha256(&master, &salt, b"taygedo/v1/s2c", 32);
    let c2s_prefix = hkdf_sha256(&c2s, &salt, b"taygedo/v1/nonce/c2s", 4);
    let s2c_prefix = hkdf_sha256(&s2c, &salt, b"taygedo/v1/nonce/s2c", 4);
    let mut a = [0u8; 32];
    a.copy_from_slice(&c2s);
    let mut b = [0u8; 32];
    b.copy_from_slice(&s2c);
    Client {
        c2s_key: a,
        s2c_key: b,
        c2s_prefix,
        s2c_prefix,
        next_seq: 1,
        last_resp: 1,
        sid: out.sid.clone(),
    }
}

impl Client {
    fn encrypt_req(&mut self, pt: &[u8]) -> (u64, Vec<u8>) {
        let seq = self.next_seq;
        self.next_seq += 1;
        let nonce = CryptoManager::build_nonce(&self.c2s_prefix, seq);
        let aad = CryptoManager::build_aad(&self.sid, 0, seq);
        let cipher = Aes256Gcm::new_from_slice(&self.c2s_key).unwrap();
        let ct = cipher
            .encrypt(GenericArray::from_slice(&nonce), Payload { msg: pt, aad: &aad })
            .unwrap();
        (seq, ct)
    }

    fn decrypt_resp(&mut self, req_seq: u64, ct: &[u8]) -> Vec<u8> {
        let seq = self.last_resp;
        self.last_resp += 1;
        let nonce = CryptoManager::build_nonce(&self.s2c_prefix, seq);
        let mut aad = CryptoManager::build_aad(&self.sid, 1, seq);
        aad.extend_from_slice(&req_seq.to_be_bytes());
        let cipher = Aes256Gcm::new_from_slice(&self.s2c_key).unwrap();
        cipher
            .decrypt(GenericArray::from_slice(&nonce), Payload { msg: ct, aad: &aad })
            .unwrap()
    }
}

#[test]
fn handshake_and_roundtrip() {
    let mut m = mgr();
    let cs = x25519_generate_secret();
    let cpub = x25519_public_from_secret(&cs);
    let cnonce = [7u8; 16];
    let out = m.handshake(&cpub, &cnonce, "127.0.0.1").expect("握手成功");

    let mut c = client_handshake(&cs, &cnonce, &out);

    let (seq, ct) = c.encrypt_req(b"{\"password\":\"hunter2\"}");
    let (pt, rseq) = m.decrypt_request(&out.sid, seq, &ct).unwrap();
    assert_eq!(pt, b"{\"password\":\"hunter2\"}");
    assert_eq!(rseq, seq);

    let resp = m.encrypt_response(&out.sid, rseq, b"{\"ok\":true}").unwrap();
    assert_eq!(c.decrypt_resp(seq, &resp), b"{\"ok\":true}");
}

#[test]
fn tampered_ciphertext_is_rejected() {
    let mut m = mgr();
    let cs = x25519_generate_secret();
    let cpub = x25519_public_from_secret(&cs);
    let out = m.handshake(&cpub, &[1u8; 16], "p").unwrap();
    let mut c = client_handshake(&cs, &[1u8; 16], &out);

    let (seq, mut ct) = c.encrypt_req(b"secret");
    ct[0] ^= 0x01;
    assert_eq!(m.decrypt_request(&out.sid, seq, &ct).unwrap_err(), CryptoError::AuthFailed);
}

#[test]
fn replay_is_rejected() {
    let mut m = mgr();
    let cs = x25519_generate_secret();
    let cpub = x25519_public_from_secret(&cs);
    let out = m.handshake(&cpub, &[2u8; 16], "p").unwrap();
    let mut c = client_handshake(&cs, &[2u8; 16], &out);

    let (seq, ct) = c.encrypt_req(b"once");
    assert!(m.decrypt_request(&out.sid, seq, &ct).is_ok());
    assert_eq!(m.decrypt_request(&out.sid, seq, &ct).unwrap_err(), CryptoError::Replay);
}

#[test]
fn seq_cross_session_is_rejected() {
    let mut m = mgr();
    let cs1 = x25519_generate_secret();
    let cs2 = x25519_generate_secret();
    let out1 = m.handshake(&x25519_public_from_secret(&cs1), &[3u8; 16], "a").unwrap();
    let out2 = m.handshake(&x25519_public_from_secret(&cs2), &[4u8; 16], "b").unwrap();
    let mut c1 = client_handshake(&cs1, &[3u8; 16], &out1);
    let (seq, ct) = c1.encrypt_req(b"payload");
    assert!(m.decrypt_request(&out2.sid, seq, &ct).is_err());
}

#[test]
fn wrong_peer_key_fails() {
    let mut m = mgr();
    let cs = x25519_generate_secret();
    let out = m.handshake(&x25519_public_from_secret(&cs), &[5u8; 16], "p").unwrap();
    let mut real = client_handshake(&cs, &[5u8; 16], &out);
    let (seq, ct) = real.encrypt_req(b"real");

    let evil_cs = x25519_generate_secret();
    let evil_out = m.handshake(&x25519_public_from_secret(&evil_cs), &[6u8; 16], "e").unwrap();
    assert!(m.decrypt_request(&evil_out.sid, seq, &ct).is_err());
}

#[test]
fn low_order_public_key_is_rejected() {
    let mut m = mgr();
    let zero = [0u8; 32];
    assert!(m.handshake(&zero, &[0u8; 16], "p").is_err());
}

#[test]
fn destroy_all_clears_sessions() {
    let mut m = mgr();
    let cs = x25519_generate_secret();
    let cpub = x25519_public_from_secret(&cs);
    let out = m.handshake(&cpub, &[8u8; 16], "p").unwrap();
    assert_eq!(m.active_sessions(), 1);
    assert_eq!(m.destroy_all(), 1);
    assert_eq!(m.active_sessions(), 0);
    assert_eq!(m.decrypt_request(&out.sid, 1, b"x").unwrap_err(), CryptoError::NoSession);
}

#[test]
fn destroy_all_except_keeps_current_session() {
    let mut m = mgr();
    let cs = x25519_generate_secret();
    let cpub = x25519_public_from_secret(&cs);
    let keep = m.handshake(&cpub, &[1u8; 16], "keep").unwrap();
    let other = m.handshake(&cpub, &[2u8; 16], "other").unwrap();
    assert_eq!(m.active_sessions(), 2);

    assert_eq!(m.destroy_all_except(&keep.sid), 1);
    assert_eq!(m.active_sessions(), 1);

    assert!(m.encrypt_response(&keep.sid, 1, b"hello").is_ok());
    assert_eq!(m.decrypt_request(&other.sid, 1, b"x").unwrap_err(), CryptoError::NoSession);
}

#[test]
fn destroy_all_except_with_unknown_sid_clears_everything() {
    let mut m = mgr();
    let cs = x25519_generate_secret();
    let cpub = x25519_public_from_secret(&cs);
    m.handshake(&cpub, &[3u8; 16], "a").unwrap();
    m.handshake(&cpub, &[4u8; 16], "b").unwrap();
    assert_eq!(m.destroy_all_except("no-such-sid"), 2);
    assert_eq!(m.active_sessions(), 0);
}

#[test]
fn nonce_prefix_differs_per_direction() {
    let mut m = mgr();
    let cs = x25519_generate_secret();
    let cpub = x25519_public_from_secret(&cs);
    let out = m.handshake(&cpub, &[9u8; 16], "p").unwrap();
    let c = client_handshake(&cs, &[9u8; 16], &out);
    assert_ne!(c.c2s_prefix, c.s2c_prefix);
    assert_ne!(c.c2s_key, c.s2c_key);
}

#[test]
fn handshake_rate_limit_engages() {
    let mut m = mgr();
    for _ in 0..HS_MAX_PER_WINDOW {
        assert!(m.allow_handshake("peer"));
    }
    assert!(!m.allow_handshake("peer"));
    assert!(m.allow_handshake("other"));
}

#[test]
fn failed_decrypt_does_not_consume_sequence() {
    let mut m = mgr();
    let cs = x25519_generate_secret();
    let cpub = x25519_public_from_secret(&cs);
    let out = m.handshake(&cpub, &[10u8; 16], "p").unwrap();
    let mut c = client_handshake(&cs, &[10u8; 16], &out);
    let (seq, ct) = c.encrypt_req(b"body");
    let mut bad = ct.clone();
    bad[1] ^= 0x80;
    assert_eq!(m.decrypt_request(&out.sid, seq, &bad).unwrap_err(), CryptoError::AuthFailed);
    let (pt, _) = m.decrypt_request(&out.sid, seq, &ct).unwrap();
    assert_eq!(pt, b"body");
}

#[test]
fn rate_limit_window_reopens() {
    let mut m = mgr();
    for _ in 0..HS_MAX_PER_WINDOW {
        assert!(m.allow_handshake_at("peer", 1000));
    }
    assert!(!m.allow_handshake_at("peer", 1059));
    assert!(m.allow_handshake_at("peer", 1060));
}

#[test]
fn nonce_and_aad_layout() {
    assert_eq!(
        CryptoManager::build_nonce(&[1, 2, 3, 4], 258),
        vec![1, 2, 3, 4, 0, 0, 0, 0, 0, 0, 1, 2]
    );
    assert_eq!(
        CryptoManager::build_aad("ab", 1, 1),
        vec![b'a', b'b', 1, 0, 0, 0, 0, 0, 0, 0, 1]
    );
}

#[test]
fn authenticated_flag_is_per_session() {
    let mut m = mgr();
    let cs = x25519_generate_secret();
    let cpub = x25519_public_from_secret(&cs);
    let a = m.handshake(&cpub, &[11u8; 16], "p").unwrap();
    let b = m.handshake(&cpub, &[12u8; 16], "p").unwrap();
    assert!(!m.is_authenticated(&a.sid));
    m.mark_authenticated(&a.sid);
    assert!(m.is_authenticated(&a.sid));
    assert!(!m.is_authenticated(&b.sid));
    m.destroy(&a.sid);
    assert!(!m.is_authenticated(&a.sid));
    assert_eq!(m.active_sessions(), 1);
}

#[test]
fn envelope_roundtrip_and_malformed() {
    let ct = vec![0u8, 1, 2, 250, 251, 252];
    let env = encode_envelope(&ct);
    assert_eq!(decode_envelope(&env).unwrap(), ct);
    assert_eq!(decode_envelope("!!!").unwrap_err(), CryptoError::Malformed);
    let key = [9u8; 16];
    assert_eq!(decode_fixed::<16>(&encode_fixed(&key)).unwrap(), key);
    assert!(decode_fixed::<32>(&encode_fixed(&key)).is_err());
}

#[test]
fn crypto_error_public_mapping() {
    assert_eq!(CryptoError::NoSession.status_code(), 428);
    assert_eq!(CryptoError::Replay.status_code(), 400);
    assert_eq!(CryptoError::Exhausted.status_code(), 429);
    assert_eq!(CryptoError::AuthFailed.public_code(), "auth_failed");
    assert_eq!(CryptoError::Malformed.public_code(), "malformed");
}

#[test]
fn responses_use_their_own_counter() {
    let mut m = mgr();
    let cs = x25519_generate_secret();
    let cpub = x25519_public_from_secret(&cs);
    let out = m.handshake(&cpub, &[13u8; 16], "p").unwrap();
    let mut c = client_handshake(&cs, &[13u8; 16], &out);
    let (s1, ct1) = c.encrypt_req(b"one");
    let (_, r1) = m.decrypt_request(&out.sid, s1, &ct1).unwrap();
    let resp1 = m.encrypt_response(&out.sid, r1, b"first").unwrap();
    let (s2, ct2) = c.encrypt_req(b"two");
    let (_, r2) = m.decrypt_request(&out.sid, s2, &ct2).unwrap();
    let resp2 = m.encrypt_response(&out.sid, r2, b"second").unwrap();
    assert_eq!(c.decrypt_resp(s1, &resp1), b"first");
    assert_eq!(c.decrypt_resp(s2, &resp2), b"second");
}
