//! Data model: accounts, the stored credential, the global configuration,
//! the identity keyring and the per-game results the service keeps.

use vstd::prelude::*;

use crate::primitives::{
    b64url_decode, b64url_decode_spec, b64url_encode, b64url_encode_spec, is_b64url_char,
    x25519_generate_secret,
};
use crate::protocol::ParamMap;
use crate::text::{chars_of, decimal, decimal_chars, push_all, push_str, string_from_chars, trim, trim_chars};

verus! {

/// A stored password: scrypt-derived key, AES-256-GCM ciphertext, each part
/// Base64 (URL-safe, unpadded).
#[derive(Debug)]
pub struct EncryptedPassword {
    pub v: u8,
    pub alg: String,
    pub kdf: Option<String>,
    pub salt: Option<String>,
    pub iv: String,
    pub tag: String,
    pub data: String,
}

/// A game account with its login state.
#[derive(Debug)]
pub struct Account {
    pub id: String,
    pub name: String,
    pub uid: String,
    pub device_id: String,
    pub openudid: Option<String>,
    pub vendorid: Option<String>,
    pub access_token: Option<String>,
    pub refresh_token: String,
    pub laohu_token: Option<String>,
    pub laohu_user_id: Option<String>,
    pub token_updated_at: Option<String>,
    pub phone: Option<String>,
    pub encrypted_password: Option<EncryptedPassword>,
    pub role_id: Option<String>,
    pub role_name: Option<String>,
}

/// A copy of an optional string.
pub fn clone_opt(s: &Option<String>) -> (r: Option<String>)
    ensures
        r == *s,
{
    match s {
        Some(x) => Some(x.clone()),
        None => None,
    }
}

impl EncryptedPassword {
    /// A field-for-field copy.
    pub fn duplicate(&self) -> (r: EncryptedPassword)
        ensures
            r == *self,
    {
        EncryptedPassword {
            v: self.v,
            alg: self.alg.clone(),
            kdf: clone_opt(&self.kdf),
            salt: clone_opt(&self.salt),
            iv: self.iv.clone(),
            tag: self.tag.clone(),
            data: self.data.clone(),
        }
    }
}

impl Account {
    /// A field-for-field copy.
    pub fn duplicate(&self) -> (r: Account)
        ensures
            r == *self,
    {
        Account {
            id: self.id.clone(),
            name: self.name.clone(),
            uid: self.uid.clone(),
            device_id: self.device_id.clone(),
            openudid: clone_opt(&self.openudid),
            vendorid: clone_opt(&self.vendorid),
            access_token: clone_opt(&self.access_token),
            refresh_token: self.refresh_token.clone(),
            laohu_token: clone_opt(&self.laohu_token),
            laohu_user_id: clone_opt(&self.laohu_user_id),
            token_updated_at: clone_opt(&self.token_updated_at),
            phone: clone_opt(&self.phone),
            encrypted_password: match &self.encrypted_password {
                Some(e) => Some(e.duplicate()),
                None => None,
            },
            role_id: clone_opt(&self.role_id),
            role_name: clone_opt(&self.role_name),
        }
    }
}

/// The global configuration.
pub struct Config {
    pub credential_key: String,
    pub default_schedule: String,
    /// Account id to `HH:MM`.
    pub schedules: ParamMap,
    pub coin_tasks: bool,
    pub cloud_duration: bool,
    pub share_platform: String,
    pub max_retries: u32,
    /// Web login user name (`admin` when unset).
    pub web_username: Option<String>,
    /// Web login password hash.
    pub web_password_hash: Option<String>,
    /// Salt of the web login password hash.
    pub web_password_salt: Option<String>,
    /// Hash version: 1 = SHA-256, 2 = scrypt; unset counts as 1.
    pub web_password_version: Option<u8>,
    /// The user must change the password at the next login.
    pub web_password_must_change: bool,
    /// Application-layer encryption policy: `auto`, `always` or `never`.
    pub crypto_policy: String,
    /// Whether the no-auth mode admits LAN peers.
    pub lan_no_auth: bool,
    /// LAN CIDR list, comma separated.
    pub lan_cidrs: String,
    /// The initial password was shown once.
    pub initial_password_announced: bool,
}

/// The default encryption policy.
pub fn default_crypto_policy() -> (s: String)
    ensures
        s@ == "auto"@,
{
    "auto".to_owned()
}

/// The default LAN list: RFC 1918, loopback, link-local, IPv6 ULA and
/// link-local.
pub open spec fn default_lan_cidrs_spec() -> Seq<char> {
    "10.0.0.0/8,172.16.0.0/12,192.168.0.0/16,127.0.0.0/8,169.254.0.0/16,::1/128,fc00::/7,fe80::/10"@
}

/// The default LAN list.
pub fn default_lan_cidrs() -> (s: String)
    ensures
        s@ == default_lan_cidrs_spec(),
{
    "10.0.0.0/8,172.16.0.0/12,192.168.0.0/16,127.0.0.0/8,169.254.0.0/16,::1/128,fc00::/7,fe80::/10".to_owned()
}

/// The default check-in time.
pub fn default_schedule() -> (s: String)
    ensures
        s@ == "06:10"@,
{
    "06:10".to_owned()
}

/// `true`, the default of the on/off settings.
pub fn default_true() -> (b: bool)
    ensures
        b,
{
    true
}

/// The default share platform.
pub fn default_share() -> (s: String)
    ensures
        s@ == "qq"@,
{
    "qq".to_owned()
}

/// The default retry count.
pub fn default_retries() -> (n: u32)
    ensures
        n == 3,
{
    3
}

impl Config {
    /// The defaults with a fresh credential key.
    pub fn new_default() -> (c: Config)
        ensures
            exists|b: Seq<u8>| b.len() == 32 && c.credential_key@ == b64url_encode_spec(b),
            c.credential_key@.len() == 43,
            c.default_schedule@ == "06:10"@,
            c.schedules.wf(),
            c.schedules.pairs().len() == 0,
            c.coin_tasks,
            c.cloud_duration,
            c.share_platform@ == "qq"@,
            c.max_retries == 3,
            c.web_username is None,
            c.web_password_hash is None,
            c.web_password_salt is None,
            c.web_password_version is None,
            !c.web_password_must_change,
            c.crypto_policy@ == "auto"@,
            c.lan_no_auth,
            c.lan_cidrs@ == default_lan_cidrs_spec(),
            !c.initial_password_announced,
    {
        Config {
            credential_key: crate::crypto::generate_credential_key(),
            default_schedule: default_schedule(),
            schedules: ParamMap::new(),
            coin_tasks: true,
            cloud_duration: true,
            share_platform: default_share(),
            max_retries: 3,
            web_username: None,
            web_password_hash: None,
            web_password_salt: None,
            web_password_version: None,
            web_password_must_change: false,
            crypto_policy: default_crypto_policy(),
            lan_no_auth: true,
            lan_cidrs: default_lan_cidrs(),
            initial_password_announced: false,
        }
    }
}

/// The long-term identity keyring.
pub struct KeyRing {
    /// Format version.
    pub version: u8,
    /// The identity secret, unpadded URL-safe Base64 of 32 bytes.
    pub identity_secret: String,
    /// Creation time (Shanghai).
    pub created_at: String,
    /// Rotation counter.
    pub generation: u32,
}

/// What `secret_bytes` gives for a stored identity secret.
pub open spec fn secret_bytes_spec(identity_secret: Seq<char>) -> Result<Seq<u8>, Seq<char>> {
    match b64url_decode_spec(trim(identity_secret)) {
        None => Err("identity_secret 不是合法 base64url"@),
        Some(raw) => if raw.len() == 32 {
            Ok(raw)
        } else {
            Err("identity_secret 长度应为 32 字节，实际 "@ + decimal(raw.len()))
        },
    }
}

/// Text without whitespace at either end is its own trim.
proof fn lemma_trim_b64(s: Seq<char>)
    requires
        forall|i: int| 0 <= i < s.len() ==> is_b64url_char(#[trigger] s[i]),
    ensures
        trim(s) == s,
{
    if s.len() > 0 {
        assert(is_b64url_char(s[0]));
        assert(is_b64url_char(s.last()));
    }
}

impl KeyRing {
    /// The 32 secret bytes of the keyring.
    pub fn secret_bytes(&self) -> (r: Result<[u8; 32], String>)
        ensures
            match r {
                Ok(b) => secret_bytes_spec(self.identity_secret@) == Ok::<Seq<u8>, Seq<char>>(b@),
                Err(m) => secret_bytes_spec(self.identity_secret@) == Err::<Seq<u8>, Seq<char>>(m@),
            },
    {
        let t = string_from_chars(&trim_chars(&chars_of(self.identity_secret.as_str())));
        let raw = match b64url_decode(t.as_str()) {
            Some(b) => b,
            None => return Err("identity_secret 不是合法 base64url".to_owned()),
        };
        if raw.len() != 32 {
            let mut m = chars_of("identity_secret 长度应为 32 字节，实际 ");
            let n = decimal_chars(raw.len() as u64);
            push_all(&mut m, &n);
            return Err(string_from_chars(&m));
        }
        Ok(crate::primitives::to_array(raw))
    }

    /// A new keyring with a fresh identity secret. Its secret reads back.
    pub fn generate() -> (k: KeyRing)
        ensures
            k.version == 1,
            k.generation == 1,
            exists|b: Seq<u8>|
                b.len() == 32 && k.identity_secret@ == b64url_encode_spec(b) && secret_bytes_spec(
                    k.identity_secret@,
                ) == Ok::<Seq<u8>, Seq<char>>(b),
    {
        let secret = x25519_generate_secret();
        let text = b64url_encode(&secret);
        proof {
            lemma_trim_b64(text@);
        }
        KeyRing {
            version: 1,
            identity_secret: text,
            created_at: crate::time::shanghai_datetime(),
            generation: 1,
        }
    }
}

/// A game role to check in with.
pub struct GameRole {
    pub game_id: String,
    pub role_id: String,
    pub role_name: Option<String>,
    pub game_name: Option<String>,
}

/// The reward of a check-in day.
pub struct Reward {
    pub name: String,
    pub num: i64,
}

/// The outcome of one game's check-in.
pub struct GameSigninResult {
    pub game_id: String,
    pub game_name: Option<String>,
    pub role_name: String,
    pub days: Option<i64>,
    pub reward: Option<Reward>,
    pub already_signed: Option<bool>,
    pub success: bool,
    pub error: Option<String>,
}

/// One line of the run log.
pub struct LogEntry {
    pub ts: String,
    pub level: String,
    pub message: String,
}

impl LogEntry {
    /// A field-for-field copy.
    pub fn duplicate(&self) -> (r: LogEntry)
        ensures
            r == *self,
    {
        LogEntry { ts: self.ts.clone(), level: self.level.clone(), message: self.message.clone() }
    }
}

} // verus!
