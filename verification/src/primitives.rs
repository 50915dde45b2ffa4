//! The cryptographic and encoding primitives the library takes from outside
//! crates: digests (`sha2`, `md5`), key derivation (`scrypt`), ciphers
//! (`aes`, `aes-gcm`), key exchange (`x25519-dalek`), Base64 (`base64`),
//! randomness (`rand`, `uuid`), case mapping and UTF-8 decoding.
//!
//! Each outside function is reached through exactly one trusted item here;
//! where its result is a function of its arguments, the result is named by
//! a spec function without a body, and only facts the crate documents are
//! stated beside the name.

use aes::cipher::{BlockEncrypt, KeyInit as _};
use aes_gcm::aead::{Aead, KeyInit, Payload};
use base64::Engine as _;
use rand::Rng as _;
use rand::RngCore as _;
use sha2::Digest as _;
use vstd::prelude::*;
use vstd::utf8::{decode_utf8, valid_utf8};
use vstd::arithmetic::power2::pow2;

verus! {

/// SHA-256 digest of `data`.
pub uninterp spec fn sha256_spec(data: Seq<u8>) -> Seq<u8>;

/// `sha2::Sha256::digest`: the 32-byte SHA-256 digest.
#[verifier::external_body]
pub(crate) fn sha256(data: &[u8]) -> (d: Vec<u8>)
    ensures
        d@ == sha256_spec(data@),
        d@.len() == 32,
{
    sha2::Sha256::digest(data).to_vec()
}

/// MD5 digest of `data`.
pub uninterp spec fn md5_spec(data: Seq<u8>) -> Seq<u8>;

/// `md5::compute`: the 16-byte MD5 digest.
#[verifier::external_body]
pub(crate) fn md5_digest(data: &[u8]) -> (d: Vec<u8>)
    ensures
        d@ == md5_spec(data@),
        d@.len() == 16,
{
    md5::compute(data).0.to_vec()
}

/// The 32-byte scrypt key of `password` and `salt` with cost `2^log_n`,
/// block size `r` and parallelism `p`.
pub uninterp spec fn scrypt_spec(password: Seq<u8>, salt: Seq<u8>, log_n: u8, r: u32, p: u32) -> Seq<u8>;

/// The cost parameters that `scrypt::Params::new` accepts: `log_n` below
/// the width of `usize` (at least 32 bits), `r` and `p` positive, the
/// buffers `r * 128 * 2^log_n` and `p * r * 128` within `usize`,
/// `log_n < r * 16` and `r * p < 2^30`.
pub open spec fn scrypt_params_ok(log_n: u8, r: u32, p: u32) -> bool {
    &&& log_n < 32
    &&& r > 0
    &&& p > 0
    &&& r * 128 * pow2(log_n as nat) <= usize::MAX
    &&& p * r * 128 <= usize::MAX
    &&& (log_n as int) < r * 16
    &&& r * p < 0x4000_0000
}

/// `scrypt::scrypt` with `Params::new(log_n, r, p, 32)`: a 32-byte key
/// derived from `password` and `salt`. For parameters within the limits
/// that `Params::new` checks it returns `Ok`, and a 32-byte output is
/// within the limits that `scrypt` checks, so neither call fails.
#[verifier::external_body]
pub(crate) fn scrypt_32(password: &[u8], salt: &[u8], log_n: u8, r: u32, p: u32) -> (k: Vec<u8>)
    requires
        scrypt_params_ok(log_n, r, p),
    ensures
        k@ == scrypt_spec(password@, salt@, log_n, r, p),
        k@.len() == 32,
{
    let params = scrypt::Params::new(log_n, r, p, 32).expect("valid scrypt parameters");
    let mut out = [0u8;32];
    scrypt::scrypt(password, salt, &params, &mut out).expect("32-byte output");
    out.to_vec()
}

/// AES-256-GCM encryption of `msg` under `key`, `nonce` and associated data
/// `aad`: the ciphertext followed by the 16-byte tag.
pub uninterp spec fn gcm_seal_spec(key: Seq<u8>, nonce: Seq<u8>, aad: Seq<u8>, msg: Seq<u8>) -> Seq<u8>;

/// AES-256-GCM decryption: the plaintext, or `None` when the tag does not verify.
pub uninterp spec fn gcm_open_spec(key: Seq<u8>, nonce: Seq<u8>, aad: Seq<u8>, ct: Seq<u8>) -> Option<Seq<u8>>;

/// The largest plaintext `aes-gcm` encrypts (`P_MAX`, 2^36 bytes).
pub open spec fn gcm_max_plaintext() -> nat {
    0x10_0000_0000
}

/// `Aes256Gcm::encrypt` with a `Payload { msg, aad }`. The key must be 32
/// bytes and the nonce 12 (otherwise `new_from_slice` errs and
/// `GenericArray::from_slice` panics); `aes-gcm` refuses plaintexts over
/// `P_MAX`. Stated: the output is the named ciphertext, 16 bytes longer than
/// the plaintext, and decrypting it with the same key, nonce and associated
/// data gives the plaintext back (AEAD correctness).
#[verifier::external_body]
pub(crate) fn gcm_seal(key: &[u8], nonce: &[u8], aad: &[u8], msg: &[u8]) -> (ct: Vec<u8>)
    requires
        key@.len() == 32,
        nonce@.len() == 12,
        msg@.len() <= gcm_max_plaintext(),
        aad@.len() <= gcm_max_plaintext(),
    ensures
        ct@ == gcm_seal_spec(key@, nonce@, aad@, msg@),
        ct@.len() == msg@.len() + 16,
        gcm_open_spec(key@, nonce@, aad@, ct@) == Some(msg@),
{
    let cipher = aes_gcm::Aes256Gcm::new_from_slice(key).expect("32-byte key");
    cipher
        .encrypt(aes_gcm::aead::generic_array::GenericArray::from_slice(nonce), Payload { msg, aad })
        .expect("plaintext within P_MAX")
}

/// `Aes256Gcm::decrypt` with a `Payload { msg: ct, aad }`: the plaintext
/// when the tag verifies, `None` otherwise. Key 32 bytes, nonce 12.
#[verifier::external_body]
pub(crate) fn gcm_open(key: &[u8], nonce: &[u8], aad: &[u8], ct: &[u8]) -> (pt: Option<Vec<u8>>)
    requires
        key@.len() == 32,
        nonce@.len() == 12,
    ensures
        match pt {
            Some(p) => gcm_open_spec(key@, nonce@, aad@, ct@) == Some(p@),
            None => gcm_open_spec(key@, nonce@, aad@, ct@) is None,
        },
{
    let cipher = aes_gcm::Aes256Gcm::new_from_slice(key).expect("32-byte key");
    match cipher.decrypt(aes_gcm::aead::generic_array::GenericArray::from_slice(nonce), Payload { msg: ct, aad }) {
        Ok(p) => Some(p),
        Err(_) => None,
    }
}

/// AES-128 encryption of one 16-byte block.
pub uninterp spec fn aes128_block_spec(key: Seq<u8>, block: Seq<u8>) -> Seq<u8>;

/// `aes::Aes128::encrypt_block` on one block with a 16-byte key.
#[verifier::external_body]
pub(crate) fn aes128_encrypt_block(key: &[u8], block: &[u8]) -> (out: Vec<u8>)
    requires
        key@.len() == 16,
        block@.len() == 16,
    ensures
        out@ == aes128_block_spec(key@, block@),
        out@.len() == 16,
{
    let cipher = aes::Aes128::new_from_slice(key).expect("16-byte key");
    let mut b = aes::cipher::generic_array::GenericArray::clone_from_slice(block);
    cipher.encrypt_block(&mut b);
    b.to_vec()
}

/// Base64 (URL-safe alphabet, no padding) text of `bytes`.
pub uninterp spec fn b64url_encode_spec(bytes: Seq<u8>) -> Seq<char>;

/// Bytes of Base64 (URL-safe alphabet, no padding) text, or `None` when the
/// text is not valid in that encoding.
pub uninterp spec fn b64url_decode_spec(text: Seq<char>) -> Option<Seq<u8>>;

/// A character of the URL-safe Base64 alphabet (`A-Z a-z 0-9 - _`).
pub open spec fn is_b64url_char(c: char) -> bool {
    ('A' <= c && c <= 'Z') || ('a' <= c && c <= 'z') || ('0' <= c && c <= '9') || c == '-' || c
        == '_'
}

/// `base64::engine::general_purpose::URL_SAFE_NO_PAD.encode`. Stated beside
/// the name: the text uses only the URL-safe alphabet (no padding), and
/// decoding it with the same engine gives the bytes back.
#[verifier::external_body]
pub(crate) fn b64url_encode(bytes: &[u8]) -> (s: String)
    ensures
        s@ == b64url_encode_spec(bytes@),
        s@.len() == (4 * bytes@.len() + 2) / 3,
        forall|i: int| 0 <= i < s@.len() ==> is_b64url_char(#[trigger] s@[i]),
        b64url_decode_spec(s@) == Some(bytes@),
{
    base64::engine::general_purpose::URL_SAFE_NO_PAD.encode(bytes)
}

/// `base64::engine::general_purpose::URL_SAFE_NO_PAD.decode`: `None` on a
/// `DecodeError`.
#[verifier::external_body]
pub(crate) fn b64url_decode(text: &str) -> (r: Option<Vec<u8>>)
    ensures
        match r {
            Some(b) => b64url_decode_spec(text@) == Some(b@),
            None => b64url_decode_spec(text@) is None,
        },
{
    match base64::engine::general_purpose::URL_SAFE_NO_PAD.decode(text) {
        Ok(b) => Some(b),
        Err(_) => None,
    }
}

/// Base64 (standard alphabet, with padding) text of `bytes`.
pub uninterp spec fn b64_std_encode_spec(bytes: Seq<u8>) -> Seq<char>;

/// A character of the standard Base64 alphabet or its padding
/// (`A-Z a-z 0-9 + / =`).
pub open spec fn is_b64_std_char(c: char) -> bool {
    ('A' <= c && c <= 'Z') || ('a' <= c && c <= 'z') || ('0' <= c && c <= '9') || c == '+' || c
        == '/' || c == '='
}

/// `base64::engine::general_purpose::STANDARD.encode`: four characters of
/// the standard alphabet for every started group of three bytes, padded
/// with `=`.
#[verifier::external_body]
pub(crate) fn b64_std_encode(bytes: &[u8]) -> (s: String)
    ensures
        s@ == b64_std_encode_spec(bytes@),
        s@.len() == 4 * ((bytes@.len() + 2) / 3),
        forall|i: int| 0 <= i < s@.len() ==> is_b64_std_char(#[trigger] s@[i]),
{
    base64::engine::general_purpose::STANDARD.encode(bytes)
}

/// `len` bytes from the thread-local CSPRNG (`rand::thread_rng().fill_bytes`).
/// The bytes depend on chance: only their number is stated.
#[verifier::external_body]
pub fn random_bytes(len: usize) -> (b: Vec<u8>)
    ensures
        b@.len() == len,
{
    let mut buf = vec![0u8; len];
    rand::thread_rng().fill_bytes(&mut buf);
    buf
}

/// One byte from the thread-local CSPRNG (`rand::thread_rng().gen::<u8>()`).
#[verifier::external_body]
pub(crate) fn random_u8() -> u8 {
    rand::thread_rng().gen::<u8>()
}

/// A lowercase hexadecimal digit.
pub open spec fn is_lower_hex_char(c: char) -> bool {
    ('0' <= c && c <= '9') || ('a' <= c && c <= 'f')
}

/// The hyphenated lowercase text of a version-4 UUID: 36 characters,
/// hyphens at 8, 13, 18 and 23, lowercase hex digits elsewhere, the version
/// digit `4` at 14 and the variant digit (`8`, `9`, `a` or `b`) at 19.
pub open spec fn uuid_v4_form(s: Seq<char>) -> bool {
    &&& s.len() == 36
    &&& forall|i: int|
        0 <= i < 36 ==> if i == 8 || i == 13 || i == 18 || i == 23 {
            s[i] == '-'
        } else {
            is_lower_hex_char(#[trigger] s[i])
        }
    &&& s[14] == '4'
    &&& (s[19] == '8' || s[19] == '9' || s[19] == 'a' || s[19] == 'b')
}

/// `uuid::Uuid::new_v4().to_string()`: a random version-4 UUID (`new_v4`
/// sets the version and variant bits) in the hyphenated lowercase form that
/// `Display` writes. The random digits are not claimed.
#[verifier::external_body]
pub(crate) fn uuid_v4_text() -> (u: String)
    ensures
        uuid_v4_form(u@),
{
    uuid::Uuid::new_v4().to_string()
}

/// `str::to_uppercase`: the Unicode uppercase mapping of `s`.
pub uninterp spec fn uppercase_spec(s: Seq<char>) -> Seq<char>;

/// The ASCII uppercase of `c`.
pub open spec fn ascii_upper(c: char) -> char {
    if 'a' <= c && c <= 'z' {
        ((c as u32) - 32) as char
    } else {
        c
    }
}

/// `str::to_uppercase`. On ASCII text the Unicode mapping is the ASCII one:
/// `a`-`z` become `A`-`Z`, every other character stays, one for one.
#[verifier::external_body]
pub(crate) fn to_uppercase(s: &str) -> (r: String)
    ensures
        r@ == uppercase_spec(s@),
        (forall|i: int| 0 <= i < s@.len() ==> (#[trigger] s@[i] as u32) < 128) ==> r@ == Seq::new(
            s@.len(),
            |i: int| ascii_upper(s@[i]),
        ),
{
    s.to_uppercase()
}

/// `str::to_lowercase`: the Unicode lowercase mapping of `s`.
pub uninterp spec fn lowercase_spec(s: Seq<char>) -> Seq<char>;

/// `str::to_lowercase`.
#[verifier::external_body]
pub(crate) fn to_lowercase(s: &str) -> (r: String)
    ensures
        r@ == lowercase_spec(s@),
{
    s.to_lowercase()
}

/// `String::from_utf8`: the text when `bytes` is valid UTF-8.
#[verifier::external_body]
pub(crate) fn utf8_decode(bytes: Vec<u8>) -> (r: Option<String>)
    ensures
        r is Some <==> valid_utf8(bytes@),
        r matches Some(s) ==> s@ == decode_utf8(bytes@),
{
    String::from_utf8(bytes).ok()
}

/// `SystemTime::now().duration_since(UNIX_EPOCH)` in whole seconds, or 0
/// when the clock reads before the epoch. Depends on the clock: nothing is
/// claimed of the value.
#[verifier::external_body]
pub(crate) fn unix_seconds() -> u64 {
    match std::time::SystemTime::now().duration_since(std::time::UNIX_EPOCH) {
        Ok(d) => d.as_secs(),
        Err(_) => 0,
    }
}

/// `SystemTime::now().duration_since(UNIX_EPOCH)` in milliseconds (`as_millis`,
/// truncated to `u64`), or 0 before the epoch. Depends on the clock.
#[verifier::external_body]
pub(crate) fn unix_millis() -> u64 {
    match std::time::SystemTime::now().duration_since(std::time::UNIX_EPOCH) {
        Ok(d) => d.as_millis() as u64,
        Err(_) => 0,
    }
}

/// The X25519 public key of a 32-byte secret.
pub uninterp spec fn x25519_public_spec(secret: Seq<u8>) -> Seq<u8>;

/// The 32-byte X25519 shared point of `secret` and `peer`.
pub uninterp spec fn x25519_shared_spec(secret: Seq<u8>, peer: Seq<u8>) -> Seq<u8>;

/// A fresh X25519 secret from the operating system's CSPRNG
/// (`StaticSecret::random_from_rng(OsRng).to_bytes()`). Random: nothing is
/// claimed of it.
#[verifier::external_body]
pub fn x25519_generate_secret() -> [u8; 32] {
    x25519_dalek::StaticSecret::random_from_rng(rand::rngs::OsRng).to_bytes()
}

/// `PublicKey::from(&StaticSecret::from(secret)).to_bytes()`. X25519 is a
/// key agreement: any other 32-byte secret combined with this public key
/// gives the point that this secret gives with the other's public key
/// (both scalars are clamped before the Montgomery multiplication).
#[verifier::external_body]
pub fn x25519_public_from_secret(secret: &[u8; 32]) -> (p: [u8; 32])
    ensures
        p@ == x25519_public_spec(secret@),
        forall|other: Seq<u8>|
            other.len() == 32 ==> #[trigger] x25519_shared_spec(other, p@) == x25519_shared_spec(
                secret@,
                x25519_public_spec(other),
            ),
{
    x25519_dalek::PublicKey::from(&x25519_dalek::StaticSecret::from(*secret)).to_bytes()
}

/// `StaticSecret::diffie_hellman` with the peer's public key: the bytes of
/// the 32-byte shared point. The all-zero public key is the point of order
/// two; a clamped scalar is a multiple of 8, so the product is the identity,
/// which encodes as all zeros.
#[verifier::external_body]
pub(crate) fn x25519_shared_bytes(secret: &[u8; 32], peer: &[u8; 32]) -> (s: Vec<u8>)
    ensures
        s@ == x25519_shared_spec(secret@, peer@),
        s@.len() == 32,
        (forall|i: int| 0 <= i < 32 ==> peer@[i] == 0u8) ==> (forall|i: int|
            0 <= i < 32 ==> s@[i] == 0u8),
{
    x25519_dalek::StaticSecret::from(*secret)
        .diffie_hellman(&x25519_dalek::PublicKey::from(*peer))
        .to_bytes()
        .to_vec()
}

/// `zeroize::Zeroize::zeroize` on a byte vector: the bytes are overwritten
/// with zeros and the vector is cleared.
#[verifier::external_body]
pub(crate) fn wipe(v: &mut Vec<u8>)
    ensures
        final(v)@.len() == 0,
{
    zeroize::Zeroize::zeroize(v);
}

/// `<[u8; N]>::try_from(Vec<u8>)` for a vector of exactly `N` bytes.
#[verifier::external_body]
pub(crate) fn to_array<const N: usize>(v: Vec<u8>) -> (a: [u8; N])
    requires
        v@.len() == N,
    ensures
        a@ == v@,
{
    <[u8; N]>::try_from(v).expect("length N")
}

} // verus!
