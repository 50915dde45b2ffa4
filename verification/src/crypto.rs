//! Password hashing for the web login and at-rest encryption of account
//! passwords: scrypt, SHA-256, AES-256-GCM and constant-time comparison.

use vstd::prelude::*;
use vstd::utf8::{decode_utf8, encode_utf8, valid_utf8};

use crate::models::EncryptedPassword;
use crate::primitives::{
    b64url_decode, b64url_decode_spec, b64url_encode, b64url_encode_spec, gcm_max_plaintext,
    gcm_open, gcm_open_spec, gcm_seal, random_u8, scrypt_32, scrypt_params_ok, scrypt_spec, sha256, sha256_spec,
    utf8_decode,
};
use crate::text::{hex_of, hex_string, is_lower_hex, lemma_hex_lower, push_bytes, string_from_chars, sub_bytes};

pub use crate::primitives::random_bytes;

verus! {

broadcast use vstd::utf8::group_utf8_lib;

/// Password hash version 2: scrypt with a 16-byte salt.
pub const PWD_HASH_V2: u8 = 2;

/// Password hash version 1: one round of SHA-256 with an 8-byte salt.
pub const PWD_HASH_V1: u8 = 1;

/// scrypt cost: `N = 2^14`.
pub const SCRYPT_LOG_N: u8 = 14;

/// scrypt block size.
pub const SCRYPT_R: u32 = 8;

/// scrypt parallelism.
pub const SCRYPT_P: u32 = 1;

/// The library's scrypt parameters are within the limits the crate checks.
proof fn lemma_scrypt_params()
    ensures
        scrypt_params_ok(SCRYPT_LOG_N, SCRYPT_R, SCRYPT_P),
{
    vstd::arithmetic::power2::lemma2_to64();
}

/// The 32-byte scrypt key of `password` and `salt` with the library's
/// parameters.
pub open spec fn scrypt_key_spec(password: Seq<u8>, salt: Seq<u8>) -> Seq<u8> {
    scrypt_spec(password, salt, SCRYPT_LOG_N, SCRYPT_R, SCRYPT_P)
}

/// scrypt with the library's parameters.
fn scrypt_key(password: &[u8], salt: &[u8]) -> (k: Vec<u8>)
    ensures
        k@ == scrypt_key_spec(password@, salt@),
        k@.len() == 32,
{
    proof {
        lemma_scrypt_params();
    }
    scrypt_32(password, salt, SCRYPT_LOG_N, SCRYPT_R, SCRYPT_P)
}

/// The UTF-8 bytes of a string.
pub open spec fn utf8(s: Seq<char>) -> Seq<u8> {
    encode_utf8(s)
}

/// A fresh credential key: 32 random bytes as unpadded URL-safe Base64.
pub fn generate_credential_key() -> (k: String)
    ensures
        exists|b: Seq<u8>| b.len() == 32 && k@ == b64url_encode_spec(b),
        k@.len() == 43,
{
    let buf = random_bytes(32);
    b64url_encode(buf.as_slice())
}

/// The 32-byte key derived from a credential key and salt.
pub open spec fn derive_key_spec(credential_key: Seq<char>, salt: Seq<u8>) -> Seq<u8> {
    scrypt_key_spec(utf8(credential_key), salt)
}

fn derive_scrypt_key(credential_key: &str, salt: &[u8]) -> (k: Vec<u8>)
    ensures
        k@ == derive_key_spec(credential_key@, salt@),
        k@.len() == 32,
{
    scrypt_key(credential_key.as_bytes(), salt)
}

/// The algorithm name stored with encrypted passwords.
pub open spec fn gcm_alg() -> Seq<char> {
    "AES-256-GCM"@
}

/// What `decrypt_password` gives for a stored password and credential key.
pub open spec fn decrypt_password_spec(e: EncryptedPassword, credential_key: Seq<char>) -> Result<
    Seq<char>,
    Seq<char>,
> {
    if e.alg@ != gcm_alg() {
        Err("不支持的加密密码格式"@)
    } else {
        let key = if e.v == 1 {
            Some(sha256_spec(utf8(credential_key)))
        } else {
            let salt_text = match e.salt {
                Some(s) => s@,
                None => Seq::empty(),
            };
            match b64url_decode_spec(salt_text) {
                Some(salt) => Some(derive_key_spec(credential_key, salt)),
                None => None,
            }
        };
        match key {
            None => Err("salt 解码失败"@),
            Some(key) => match b64url_decode_spec(e.iv@) {
                None => Err("iv 解码失败"@),
                Some(iv) => match b64url_decode_spec(e.tag@) {
                    None => Err("tag 解码失败"@),
                    Some(tag) => match b64url_decode_spec(e.data@) {
                        None => Err("data 解码失败"@),
                        Some(data) => match gcm_open_spec(key, iv, Seq::empty(), data + tag) {
                            None => Err("存储密码解密失败，请检查凭据密钥"@),
                            Some(plain) => if valid_utf8(plain) {
                                Ok(decode_utf8(plain))
                            } else {
                                Err("解密结果非 UTF-8"@)
                            },
                        },
                    },
                },
            },
        }
    }
}

/// The stored nonce reaches the cipher and is not 12 bytes long (the cipher
/// takes its nonce with `GenericArray::from_slice`, which panics then).
pub open spec fn nonce_misfits(e: EncryptedPassword, credential_key: Seq<char>) -> bool {
    &&& e.alg@ == gcm_alg()
    &&& (e.v == 1 || b64url_decode_spec(
        match e.salt {
            Some(s) => s@,
            None => Seq::empty(),
        },
    ) is Some)
    &&& b64url_decode_spec(e.iv@) matches Some(iv) && iv.len() != 12
}

/// Encrypts `password` under `credential_key` with a fresh salt and nonce.
/// Decrypting the result with the same key gives the password back.
pub fn encrypt_password(password: &str, credential_key: &str) -> (e: EncryptedPassword)
    requires
        utf8(password@).len() <= gcm_max_plaintext(),
    ensures
        e.v == PWD_HASH_V2,
        e.alg@ == gcm_alg(),
        e.kdf matches Some(k) && k@ == "scrypt"@,
        !nonce_misfits(e, credential_key@),
        decrypt_password_spec(e, credential_key@) == Ok::<Seq<char>, Seq<char>>(password@),
{
    let salt = random_bytes(16);
    let iv = random_bytes(12);
    let key = derive_scrypt_key(credential_key, salt.as_slice());
    let empty: Vec<u8> = Vec::new();
    let ct = gcm_seal(key.as_slice(), iv.as_slice(), empty.as_slice(), password.as_bytes());
    let n = ct.len() - 16;
    let data = sub_bytes(ct.as_slice(), 0, n);
    let tag = sub_bytes(ct.as_slice(), n, ct.len());
    let salt_text = b64url_encode(salt.as_slice());
    let e = EncryptedPassword {
        v: 2,
        alg: "AES-256-GCM".to_owned(),
        kdf: Some("scrypt".to_owned()),
        salt: Some(salt_text),
        iv: b64url_encode(iv.as_slice()),
        tag: b64url_encode(tag.as_slice()),
        data: b64url_encode(data.as_slice()),
    };
    proof {
        assert(data@ + tag@ =~= ct@);
        assert(empty@ =~= Seq::<u8>::empty());
    }
    e
}

/// Decrypts a stored password with `credential_key`.
pub fn decrypt_password(encrypted: &EncryptedPassword, credential_key: &str) -> (r: Result<
    String,
    String,
>)
    requires
        !nonce_misfits(*encrypted, credential_key@),
    ensures
        match r {
            Ok(p) => decrypt_password_spec(*encrypted, credential_key@) == Ok::<Seq<char>, Seq<char>>(p@),
            Err(m) => decrypt_password_spec(*encrypted, credential_key@) == Err::<Seq<char>, Seq<char>>(m@),
        },
{
    if !crate::text::str_eq(encrypted.alg.as_str(), "AES-256-GCM") {
        return Err("不支持的加密密码格式".to_owned());
    }
    let key = if encrypted.v == 1 {
        sha256(credential_key.as_bytes())
    } else {
        let salt_text: &str = match &encrypted.salt {
            Some(s) => s.as_str(),
            None => "",
        };
        proof {
            reveal_strlit("");
            assert(salt_text@ == match encrypted.salt {
                Some(s) => s@,
                None => Seq::<char>::empty(),
            });
        }
        match b64url_decode(salt_text) {
            Some(salt) => derive_scrypt_key(credential_key, salt.as_slice()),
            None => return Err("salt 解码失败".to_owned()),
        }
    };
    let iv = match b64url_decode(encrypted.iv.as_str()) {
        Some(b) => b,
        None => return Err("iv 解码失败".to_owned()),
    };
    let tag = match b64url_decode(encrypted.tag.as_str()) {
        Some(b) => b,
        None => return Err("tag 解码失败".to_owned()),
    };
    let data = match b64url_decode(encrypted.data.as_str()) {
        Some(b) => b,
        None => return Err("data 解码失败".to_owned()),
    };
    let mut ct = data;
    push_bytes(&mut ct, tag.as_slice());
    let empty: Vec<u8> = Vec::new();
    assert(empty@ =~= Seq::<u8>::empty());
    let plain = match gcm_open(key.as_slice(), iv.as_slice(), empty.as_slice(), ct.as_slice()) {
        Some(p) => p,
        None => return Err("存储密码解密失败，请检查凭据密钥".to_owned()),
    };
    match utf8_decode(plain) {
        Some(s) => Ok(s),
        None => Err("解密结果非 UTF-8".to_owned()),
    }
}

/// `decrypt_password` where the stored nonce fits the cipher; `None` where
/// it does not (there the cipher would refuse the nonce by panicking).
pub fn decrypt_password_checked(encrypted: &EncryptedPassword, credential_key: &str) -> (r: Option<
    Result<String, String>,
>)
    ensures
        r is None <==> nonce_misfits(*encrypted, credential_key@),
        r matches Some(Ok(p)) ==> decrypt_password_spec(*encrypted, credential_key@) == Ok::<
            Seq<char>,
            Seq<char>,
        >(p@),
        r matches Some(Err(m)) ==> decrypt_password_spec(*encrypted, credential_key@) == Err::<
            Seq<char>,
            Seq<char>,
        >(m@),
{
    if !crate::text::str_eq(encrypted.alg.as_str(), "AES-256-GCM") {
        return Some(decrypt_password(encrypted, credential_key));
    }
    if encrypted.v != 1 {
        let salt_text: &str = match &encrypted.salt {
            Some(s) => s.as_str(),
            None => "",
        };
        proof {
            reveal_strlit("");
            assert(salt_text@ == match encrypted.salt {
                Some(s) => s@,
                None => Seq::<char>::empty(),
            });
        }
        if b64url_decode(salt_text).is_none() {
            return Some(decrypt_password(encrypted, credential_key));
        }
    }
    match b64url_decode(encrypted.iv.as_str()) {
        Some(iv) => {
            if iv.len() != 12 {
                return None;
            }
        },
        None => {},
    }
    Some(decrypt_password(encrypted, credential_key))
}

/// The version 2 password hash: hex of scrypt(password, salt).
pub open spec fn hash_v2_spec(password: Seq<char>, salt: Seq<char>) -> Seq<char> {
    hex_of(scrypt_key_spec(utf8(password), utf8(salt)))
}

/// `hex(scrypt(password, salt, N=16384, r=8, p=1, dkLen=32))`.
pub fn hash_password_v2(password: &str, salt: &str) -> (h: String)
    ensures
        h@ == hash_v2_spec(password@, salt@),
        h@.len() == 64,
        is_lower_hex(h@),
{
    let k = scrypt_key(password.as_bytes(), salt.as_bytes());
    proof {
        lemma_hex_lower(k@);
    }
    hex_string(k.as_slice())
}

/// The version 1 password hash: hex of SHA-256 over `salt:password`.
pub open spec fn hash_v1_spec(password: Seq<char>, salt: Seq<char>) -> Seq<char> {
    hex_of(sha256_spec(utf8(salt) + seq![58u8] + utf8(password)))
}

/// `hex(sha256(salt ":" password))`, kept to check and migrate old hashes.
pub fn hash_password(password: &str, salt: &str) -> (h: String)
    ensures
        h@ == hash_v1_spec(password@, salt@),
        h@.len() == 64,
        is_lower_hex(h@),
{
    let mut buf: Vec<u8> = Vec::new();
    push_bytes(&mut buf, salt.as_bytes());
    buf.push(58u8);
    push_bytes(&mut buf, password.as_bytes());
    assert(buf@ =~= utf8(salt@) + seq![58u8] + utf8(password@));
    let d = sha256(buf.as_slice());
    proof {
        lemma_hex_lower(d@);
    }
    hex_string(d.as_slice())
}

/// Byte comparison whose running time depends only on the lengths.
pub fn constant_time_eq(a: &[u8], b: &[u8]) -> (r: bool)
    ensures
        r == (a@ == b@),
{
    if a.len() != b.len() {
        return false;
    }
    let mut diff: u8 = 0;
    let mut i: usize = 0;
    while i < a.len()
        invariant
            i <= a@.len(),
            a@.len() == b@.len(),
            (diff == 0) <==> (forall|k: int| 0 <= k < i ==> a@[k] == b@[k]),
        decreases a.len() - i,
    {
        let x = a[i];
        let y = b[i];
        let d = diff;
        let nd = d | (x ^ y);
        assert((nd == 0) <==> (d == 0 && x == y)) by (bit_vector)
            requires
                nd == d | (x ^ y),
        ;
        diff = nd;
        i = i + 1;
    }
    if diff == 0 {
        assert(a@ =~= b@);
        true
    } else {
        false
    }
}

/// `n` random bytes as lowercase hex.
pub fn random_hex(n: usize) -> (s: String)
    ensures
        exists|b: Seq<u8>| b.len() == n && s@ == hex_of(b),
        s@.len() == 2 * n,
        is_lower_hex(s@),
{
    let bytes = random_bytes(n);
    proof {
        lemma_hex_lower(bytes@);
    }
    hex_string(bytes.as_slice())
}

/// The characters a generated passphrase draws from: letters and digits
/// without the easily confused `0 O 1 l I`.
pub open spec fn passphrase_alphabet() -> Seq<char> {
    "ABCDEFGHJKLMNPQRSTUVWXYZabcdefghijkmnopqrstuvwxyz23456789"@
}

fn passphrase_char(i: u8) -> (c: char)
    requires
        i < 57,
    ensures
        passphrase_alphabet().contains(c),
{
    let a: [char; 57] = [
        'A', 'B', 'C', 'D', 'E', 'F', 'G', 'H', 'J', 'K', 'L', 'M', 'N', 'P', 'Q', 'R', 'S',
        'T', 'U', 'V', 'W', 'X', 'Y', 'Z', 'a', 'b', 'c', 'd', 'e', 'f', 'g', 'h', 'i', 'j',
        'k', 'm', 'n', 'o', 'p', 'q', 'r', 's', 't', 'u', 'v', 'w', 'x', 'y', 'z', '2', '3',
        '4', '5', '6', '7', '8', '9',
    ];
    proof {
        reveal_strlit("ABCDEFGHJKLMNPQRSTUVWXYZabcdefghijkmnopqrstuvwxyz23456789");
        assert(a@ =~= passphrase_alphabet());
        assert(passphrase_alphabet()[i as int] == a@[i as int]);
    }
    a[i as usize]
}

/// A random passphrase of `len` characters from `passphrase_alphabet`.
/// Bytes at or above 228 (= 4 · 57) are drawn again so that every character
/// is equally likely.
pub fn generate_passphrase(len: usize) -> (p: String)
    ensures
        p@.len() == len,
        forall|i: int| 0 <= i < len ==> passphrase_alphabet().contains(#[trigger] p@[i]),
{
    let mut out: Vec<char> = Vec::new();
    let mut draws: u64 = 0;
    while out.len() < len && draws < u64::MAX
        invariant
            out@.len() <= len,
            forall|i: int| 0 <= i < out@.len() ==> passphrase_alphabet().contains(#[trigger] out@[i]),
        decreases u64::MAX - draws,
    {
        draws = draws + 1;
        let b = random_u8();
        if b < 228 {
            out.push(passphrase_char(b % 57));
        }
    }
    while out.len() < len
        invariant
            out@.len() <= len,
            forall|i: int| 0 <= i < out@.len() ==> passphrase_alphabet().contains(#[trigger] out@[i]),
        decreases len - out@.len(),
    {
        let b = random_u8();
        out.push(passphrase_char(b % 57));
    }
    string_from_chars(&out)
}

} // verus!
