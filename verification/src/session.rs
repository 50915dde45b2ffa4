//! Application-layer session encryption: X25519 key agreement, HKDF-SHA256
//! key separation and AES-256-GCM with per-direction nonce prefixes,
//! sequence-number replay protection and handshake rate limiting.

use vstd::prelude::*;

use crate::crypto::utf8;
use crate::primitives::{
    b64url_decode, b64url_decode_spec, b64url_encode, b64url_encode_spec, gcm_max_plaintext,
    gcm_open, gcm_open_spec, gcm_seal, gcm_seal_spec, random_bytes, to_array, wipe,
    x25519_generate_secret, x25519_public_from_secret, x25519_public_spec,
};
use crate::protocol::{hkdf_sha256, hkdf_spec, x25519_diffie_hellman, x25519_shared};
use crate::text::{chars_of, hex_of, is_lower_hex, push_bytes, str_eq, string_from_chars, trim, trim_chars};

verus! {

broadcast use vstd::utf8::group_utf8_lib;

/// Session lifetime in seconds; an older session must handshake again.
pub const SESSION_TTL_SECS: i64 = 1800;

/// Requests one session may carry.
pub const SESSION_MAX_REQUESTS: u64 = 200000;

/// Length of an X25519 public key.
pub const PUBKEY_LEN: usize = 32;

/// Length of the handshake nonces.
pub const NONCE_LEN: usize = 16;

/// Handshake rate window in seconds.
pub const HS_WINDOW_SECS: i64 = 60;

/// Handshakes one peer may make per window.
pub const HS_MAX_PER_WINDOW: u32 = 60;

/// Why a request could not be decrypted (or a response encrypted).
#[derive(Debug, PartialEq, Eq, Structural, Clone, Copy)]
pub enum CryptoError {
    /// No session with that id, or it expired.
    NoSession,
    /// The envelope is not well formed.
    Malformed,
    /// The sequence number did not increase.
    Replay,
    /// The GCM tag did not verify.
    AuthFailed,
    /// The session carried its maximum number of requests.
    Exhausted,
}

impl CryptoError {
    /// The error code shown to clients.
    pub fn public_code(&self) -> (s: &'static str)
        ensures
            s@ == match *self {
                CryptoError::NoSession => "no_session"@,
                CryptoError::Malformed => "malformed"@,
                CryptoError::Replay => "replay"@,
                CryptoError::AuthFailed => "auth_failed"@,
                CryptoError::Exhausted => "session_exhausted"@,
            },
    {
        match self {
            CryptoError::NoSession => "no_session",
            CryptoError::Malformed => "malformed",
            CryptoError::Replay => "replay",
            CryptoError::AuthFailed => "auth_failed",
            CryptoError::Exhausted => "session_exhausted",
        }
    }

    /// The message shown to users.
    pub fn public_message(&self) -> (s: &'static str)
        ensures
            s@ == match *self {
                CryptoError::NoSession => "加密会话不存在或已过期，请刷新页面重新建立会话"@,
                CryptoError::Malformed => "加密报文格式非法"@,
                CryptoError::Replay => "检测到重放报文，已拒绝；请刷新页面重新建立会话"@,
                CryptoError::AuthFailed => "密文认证失败（可能被篡改），已拒绝"@,
                CryptoError::Exhausted => "会话请求数已达上限，请刷新页面重新建立会话"@,
            },
    {
        match self {
            CryptoError::NoSession => "加密会话不存在或已过期，请刷新页面重新建立会话",
            CryptoError::Malformed => "加密报文格式非法",
            CryptoError::Replay => "检测到重放报文，已拒绝；请刷新页面重新建立会话",
            CryptoError::AuthFailed => "密文认证失败（可能被篡改），已拒绝",
            CryptoError::Exhausted => "会话请求数已达上限，请刷新页面重新建立会话",
        }
    }

    /// The HTTP status for the error: 428 for a missing session, 400 for a
    /// replayed, forged or malformed message, 429 for an exhausted session.
    pub fn status_code(&self) -> (code: u16)
        ensures
            code == match *self {
                CryptoError::NoSession => 428u16,
                CryptoError::Replay | CryptoError::AuthFailed | CryptoError::Malformed => 400u16,
                CryptoError::Exhausted => 429u16,
            },
    {
        match self {
            CryptoError::NoSession => 428,
            CryptoError::Replay | CryptoError::AuthFailed | CryptoError::Malformed => 400,
            CryptoError::Exhausted => 429,
        }
    }
}

/// Receiving direction (client to server).
struct RecvState {
    last_seq: u64,
    nonce_prefix: Vec<u8>,
}

/// Sending direction (server to client).
struct SendState {
    next_seq: u64,
    nonce_prefix: Vec<u8>,
}

/// One encrypted session.
pub struct CryptoSession {
    sid: String,
    c2s_key: Vec<u8>,
    s2c_key: Vec<u8>,
    recv: RecvState,
    send: SendState,
    created_at: i64,
    requests: u64,
    /// The session's client proved the login password.
    pub authenticated: bool,
    /// The remote address, for diagnostics.
    pub peer: String,
}

/// The state of a session, as the contracts see it.
pub struct SessionView {
    pub sid: Seq<char>,
    pub c2s_key: Seq<u8>,
    pub s2c_key: Seq<u8>,
    pub last_seq: u64,
    pub recv_prefix: Seq<u8>,
    pub next_seq: u64,
    pub send_prefix: Seq<u8>,
    pub created_at: i64,
    pub requests: u64,
    pub authenticated: bool,
    pub peer: Seq<char>,
}

impl View for CryptoSession {
    type V = SessionView;

    closed spec fn view(&self) -> SessionView {
        SessionView {
            sid: self.sid@,
            c2s_key: self.c2s_key@,
            s2c_key: self.s2c_key@,
            last_seq: self.recv.last_seq,
            recv_prefix: self.recv.nonce_prefix@,
            next_seq: self.send.next_seq,
            send_prefix: self.send.nonce_prefix@,
            created_at: self.created_at,
            requests: self.requests,
            authenticated: self.authenticated,
            peer: self.peer@,
        }
    }
}

/// The result of a handshake.
pub struct HandshakeOutput {
    pub sid: String,
    pub server_pub: [u8; 32],
    pub server_nonce: [u8; 16],
    pub expires_in: i64,
}

/// A handshake rate-limit record.
struct RateEntry {
    peer: String,
    count: u32,
    window_start: i64,
}

/// A rate-limit record as the contracts see it: peer, count, window start.
pub type RateView = (Seq<char>, u32, i64);

/// The sessions and handshake rate records of the server.
pub struct CryptoManager {
    sessions: Vec<CryptoSession>,
    server_identity_secret: [u8; 32],
    handshake_rate: Vec<RateEntry>,
}

/// The index of the session with id `sid`.
pub open spec fn find_sid(s: Seq<SessionView>, sid: Seq<char>) -> Option<int> {
    if exists|i: int| 0 <= i < s.len() && s[i].sid == sid {
        Some(choose|i: int| 0 <= i < s.len() && s[i].sid == sid)
    } else {
        None
    }
}

/// Session ids are distinct.
pub open spec fn unique_sids(s: Seq<SessionView>) -> bool {
    forall|i: int, j: int| 0 <= i < j < s.len() ==> s[i].sid != s[j].sid
}

/// The elements of `s` that satisfy `p`, in order.
pub open spec fn kept<A>(s: Seq<A>, p: spec_fn(A) -> bool) -> Seq<A>
    decreases s.len(),
{
    if s.len() == 0 {
        Seq::empty()
    } else if p(s.last()) {
        kept(s.drop_last(), p).push(s.last())
    } else {
        kept(s.drop_last(), p)
    }
}

/// Eight bytes, most significant first (`u64::to_be_bytes`).
pub open spec fn be_bytes(n: u64) -> Seq<u8> {
    seq![
        (n >> 56u64) as u8,
        (n >> 48u64) as u8,
        (n >> 40u64) as u8,
        (n >> 32u64) as u8,
        (n >> 24u64) as u8,
        (n >> 16u64) as u8,
        (n >> 8u64) as u8,
        n as u8,
    ]
}

/// The GCM nonce: the four-byte direction prefix, then the sequence number.
pub open spec fn nonce_spec(prefix: Seq<u8>, seq: u64) -> Seq<u8> {
    prefix + be_bytes(seq)
}

/// The associated data: session id, direction byte, sequence number.
pub open spec fn aad_spec(sid: Seq<char>, direction: u8, seq: u64) -> Seq<u8> {
    utf8(sid) + seq![direction] + be_bytes(seq)
}

fn push_be(out: &mut Vec<u8>, n: u64)
    ensures
        final(out)@ == old(out)@ + be_bytes(n),
{
    let ghost start = out@;
    out.push((n >> 56u64) as u8);
    out.push((n >> 48u64) as u8);
    out.push((n >> 40u64) as u8);
    out.push((n >> 32u64) as u8);
    out.push((n >> 24u64) as u8);
    out.push((n >> 16u64) as u8);
    out.push((n >> 8u64) as u8);
    out.push(n as u8);
    assert(out@ =~= start + be_bytes(n));
}

/// What `decrypt_request` does to the sessions and what it returns.
pub open spec fn decrypt_outcome(
    s: Seq<SessionView>,
    now: i64,
    sid: Seq<char>,
    seq: u64,
    ct: Seq<u8>,
) -> (Seq<SessionView>, Result<(Seq<u8>, u64), CryptoError>) {
    match find_sid(s, sid) {
        None => (s, Err(CryptoError::NoSession)),
        Some(i) => {
            let x = s[i];
            if now - x.created_at >= SESSION_TTL_SECS {
                (s.remove(i), Err(CryptoError::NoSession))
            } else if x.requests >= SESSION_MAX_REQUESTS {
                (s, Err(CryptoError::Exhausted))
            } else if seq <= x.last_seq {
                (s, Err(CryptoError::Replay))
            } else {
                match gcm_open_spec(x.c2s_key, nonce_spec(x.recv_prefix, seq), aad_spec(sid, 0, seq), ct) {
                    None => (s, Err(CryptoError::AuthFailed)),
                    Some(p) => (
                        s.update(
                            i,
                            SessionView {
                                sid: x.sid,
                                c2s_key: x.c2s_key,
                                s2c_key: x.s2c_key,
                                last_seq: seq,
                                recv_prefix: x.recv_prefix,
                                next_seq: x.next_seq,
                                send_prefix: x.send_prefix,
                                created_at: x.created_at,
                                requests: (x.requests + 1) as u64,
                                authenticated: x.authenticated,
                                peer: x.peer,
                            },
                        ),
                        Ok((p, seq)),
                    ),
                }
            }
        },
    }
}

/// What `encrypt_response` does to the sessions and what it returns.
pub open spec fn encrypt_outcome(
    s: Seq<SessionView>,
    sid: Seq<char>,
    req_seq: u64,
    plaintext: Seq<u8>,
) -> (Seq<SessionView>, Result<Seq<u8>, CryptoError>) {
    match find_sid(s, sid) {
        None => (s, Err(CryptoError::NoSession)),
        Some(i) => {
            let x = s[i];
            if x.next_seq == u64::MAX {
                (s, Err(CryptoError::Exhausted))
            } else {
                let ct = gcm_seal_spec(
                    x.s2c_key,
                    nonce_spec(x.send_prefix, x.next_seq),
                    aad_spec(sid, 1, x.next_seq) + be_bytes(req_seq),
                    plaintext,
                );
                (
                    s.update(
                        i,
                        SessionView {
                            sid: x.sid,
                            c2s_key: x.c2s_key,
                            s2c_key: x.s2c_key,
                            last_seq: x.last_seq,
                            recv_prefix: x.recv_prefix,
                            next_seq: (x.next_seq + 1) as u64,
                            send_prefix: x.send_prefix,
                            created_at: x.created_at,
                            requests: x.requests,
                            authenticated: x.authenticated,
                            peer: x.peer,
                        },
                    ),
                    Ok(ct),
                )
            }
        },
    }
}

/// The HKDF salt of a handshake: both public keys, then both nonces.
pub open spec fn handshake_salt(
    client_pub: Seq<u8>,
    server_pub: Seq<u8>,
    client_nonce: Seq<u8>,
    server_nonce: Seq<u8>,
) -> Seq<u8> {
    client_pub + server_pub + client_nonce + server_nonce
}

/// The master key of a session.
pub open spec fn master_key_spec(shared: Seq<u8>, salt: Seq<u8>) -> Seq<u8> {
    hkdf_spec(shared, salt, utf8("taygedo/v1/aead"@), 32)
}

/// The client-to-server key.
pub open spec fn c2s_key_spec(shared: Seq<u8>, salt: Seq<u8>) -> Seq<u8> {
    hkdf_spec(master_key_spec(shared, salt), salt, utf8("taygedo/v1/c2s"@), 32)
}

/// The server-to-client key.
pub open spec fn s2c_key_spec(shared: Seq<u8>, salt: Seq<u8>) -> Seq<u8> {
    hkdf_spec(master_key_spec(shared, salt), salt, utf8("taygedo/v1/s2c"@), 32)
}

/// The session a handshake creates.
pub open spec fn new_session_spec(
    sid: Seq<char>,
    shared: Seq<u8>,
    salt: Seq<u8>,
    now: i64,
    peer: Seq<char>,
) -> SessionView {
    SessionView {
        sid,
        c2s_key: c2s_key_spec(shared, salt),
        s2c_key: s2c_key_spec(shared, salt),
        last_seq: 0,
        recv_prefix: hkdf_spec(c2s_key_spec(shared, salt), salt, utf8("taygedo/v1/nonce/c2s"@), 4),
        next_seq: 1,
        send_prefix: hkdf_spec(s2c_key_spec(shared, salt), salt, utf8("taygedo/v1/nonce/s2c"@), 4),
        created_at: now,
        requests: 0,
        authenticated: false,
        peer,
    }
}

/// The sessions a handshake keeps: the live ones with another id.
pub open spec fn live_other(now: i64, sid: Seq<char>) -> spec_fn(SessionView) -> bool {
    |x: SessionView| now - x.created_at < SESSION_TTL_SECS && x.sid != sid
}

/// Sessions with id `sid`.
pub open spec fn has_sid(sid: Seq<char>) -> spec_fn(SessionView) -> bool {
    |x: SessionView| x.sid == sid
}

/// The rate records a handshake check keeps (younger than four windows).
pub open spec fn rate_fresh(now: i64) -> spec_fn(RateView) -> bool {
    |e: RateView| now - e.2 < HS_WINDOW_SECS * 4
}

/// The index of the rate record of `peer`.
pub open spec fn find_peer(r: Seq<RateView>, peer: Seq<char>) -> Option<int> {
    if exists|i: int| 0 <= i < r.len() && r[i].0 == peer {
        Some(choose|i: int| 0 <= i < r.len() && r[i].0 == peer)
    } else {
        None
    }
}

/// What `allow_handshake` does to the rate records and what it returns: a
/// new peer, or one whose window has passed, starts a window with one
/// handshake and is allowed; otherwise the count goes up (saturating) and
/// the handshake is allowed while the count stays within the limit.
pub open spec fn allow_outcome(r: Seq<RateView>, peer: Seq<char>, now: i64) -> (Seq<RateView>, bool) {
    let fresh = kept(r, rate_fresh(now));
    match find_peer(fresh, peer) {
        None => (fresh.push((peer, 1u32, now)), true),
        Some(i) => {
            let (p, c, st) = fresh[i];
            if now - st >= HS_WINDOW_SECS {
                (fresh.update(i, (p, 1u32, now)), true)
            } else {
                let c2: u32 = if c < u32::MAX { (c + 1) as u32 } else { c };
                (fresh.update(i, (p, c2, st)), c2 <= HS_MAX_PER_WINDOW)
            }
        },
    }
}

/// Record keys are distinct.
pub open spec fn unique_peers(r: Seq<RateView>) -> bool {
    forall|i: int, j: int| 0 <= i < j < r.len() ==> r[i].0 != r[j].0
}

/// A session as the manager keeps it: created at a non-negative time, 32-byte
/// keys, four-byte nonce prefixes and a short id.
pub open spec fn session_ok(x: SessionView) -> bool {
    &&& x.created_at >= 0
    &&& x.c2s_key.len() == 32
    &&& x.s2c_key.len() == 32
    &&& x.recv_prefix.len() == 4
    &&& x.send_prefix.len() == 4
    &&& utf8(x.sid).len() <= 1024
}

/// The views of a result of `decrypt_request`.
pub open spec fn decrypt_result_view(r: Result<(Vec<u8>, u64), CryptoError>) -> Result<
    (Seq<u8>, u64),
    CryptoError,
> {
    match r {
        Ok((p, q)) => Ok((p@, q)),
        Err(e) => Err(e),
    }
}

/// The views of a result of `encrypt_response`.
pub open spec fn encrypt_result_view(r: Result<Vec<u8>, CryptoError>) -> Result<Seq<u8>, CryptoError> {
    match r {
        Ok(c) => Ok(c@),
        Err(e) => Err(e),
    }
}

/// A handshake result as the contracts see it: id, server public key,
/// server nonce, lifetime.
pub type HandshakeView = (Seq<char>, Seq<u8>, Seq<u8>, i64);

/// The views of a result of `handshake`.
pub open spec fn handshake_result_view(r: Result<HandshakeOutput, CryptoError>) -> Result<
    HandshakeView,
    CryptoError,
> {
    match r {
        Ok(o) => Ok((o.sid@, o.server_pub@, o.server_nonce@, o.expires_in)),
        Err(e) => Err(e),
    }
}

/// What a handshake does, given the server's ephemeral secret, its nonce,
/// the new session id and the time: with a contributory key exchange, the
/// expired sessions and any session with the same id go, the new session is
/// added, and the server's public key and nonce are returned.
pub open spec fn handshake_outcome(
    s: Seq<SessionView>,
    now: i64,
    eph_secret: Seq<u8>,
    server_nonce: Seq<u8>,
    sid: Seq<char>,
    client_pub: Seq<u8>,
    client_nonce: Seq<u8>,
    peer: Seq<char>,
) -> (Seq<SessionView>, Result<HandshakeView, CryptoError>) {
    match x25519_shared(eph_secret, client_pub) {
        None => (s, Err(CryptoError::AuthFailed)),
        Some(shared) => {
            let server_pub = x25519_public_spec(eph_secret);
            let salt = handshake_salt(client_pub, server_pub, client_nonce, server_nonce);
            (
                kept(s, live_other(now, sid)).push(new_session_spec(sid, shared, salt, now, peer)),
                Ok((sid, server_pub, server_nonce, SESSION_TTL_SECS)),
            )
        },
    }
}

proof fn lemma_kept_step<A>(s: Seq<A>, p: spec_fn(A) -> bool, j: int)
    requires
        0 <= j < s.len(),
    ensures
        kept(s.take(j + 1), p) == if p(s[j]) {
            kept(s.take(j), p).push(s[j])
        } else {
            kept(s.take(j), p)
        },
{
    assert(s.take(j + 1).drop_last() =~= s.take(j));
    assert(s.take(j + 1).last() == s[j]);
}

impl CryptoManager {
    /// The sessions, in the order kept.
    pub closed spec fn sessions_view(&self) -> Seq<SessionView> {
        self.sessions@.map_values(|x: CryptoSession| x@)
    }

    /// The handshake rate records.
    pub closed spec fn rate_view(&self) -> Seq<RateView> {
        self.handshake_rate@.map_values(|e: RateEntry| (e.peer@, e.count, e.window_start))
    }

    /// The server's long-term identity secret.
    pub closed spec fn identity_secret(&self) -> Seq<u8> {
        self.server_identity_secret@
    }

    /// Distinct session ids, well-formed sessions, one rate record per peer
    /// with non-negative window starts.
    pub open spec fn wf(&self) -> bool {
        &&& unique_sids(self.sessions_view())
        &&& forall|i: int|
            0 <= i < self.sessions_view().len() ==> session_ok(#[trigger] self.sessions_view()[i])
        &&& unique_peers(self.rate_view())
        &&& forall|i: int| 0 <= i < self.rate_view().len() ==> (#[trigger] self.rate_view()[i]).2 >= 0
    }

    /// A manager with no sessions for the given identity secret.
    pub fn new(server_identity_secret: [u8; 32]) -> (m: CryptoManager)
        ensures
            m.wf(),
            m.sessions_view() == Seq::<SessionView>::empty(),
            m.rate_view() == Seq::<RateView>::empty(),
            m.identity_secret() == server_identity_secret@,
    {
        let m = CryptoManager {
            sessions: Vec::new(),
            server_identity_secret,
            handshake_rate: Vec::new(),
        };
        assert(m.sessions_view() =~= Seq::<SessionView>::empty());
        assert(m.rate_view() =~= Seq::<RateView>::empty());
        m
    }

    /// The long-term identity public key, which clients may pin.
    pub fn server_identity_public(&self) -> (p: [u8; 32])
        ensures
            p@ == x25519_public_spec(self.identity_secret()),
    {
        x25519_public_from_secret(&self.server_identity_secret)
    }

    /// The number of live sessions.
    pub fn active_sessions(&self) -> (n: usize)
        ensures
            n == self.sessions_view().len(),
    {
        self.sessions.len()
    }

    fn find_index(&self, sid: &str) -> (r: Option<usize>)
        requires
            self.wf(),
        ensures
            match r {
                Some(i) => i < self.sessions_view().len() && find_sid(self.sessions_view(), sid@)
                    == Some(i as int),
                None => find_sid(self.sessions_view(), sid@) is None,
            },
    {
        let ghost v = self.sessions_view();
        let mut i: usize = 0;
        while i < self.sessions.len()
            invariant
                v == self.sessions_view(),
                unique_sids(v),
                i <= v.len(),
                forall|k: int| 0 <= k < i ==> v[k].sid != sid@,
            decreases self.sessions@.len() - i,
        {
            if str_eq(self.sessions[i].sid.as_str(), sid) {
                proof {
                    assert(v[i as int].sid == sid@);
                    let w = choose|k: int| 0 <= k < v.len() && v[k].sid == sid@;
                    if w != i {
                        assert(unique_sids(v));
                        if w < i {
                            assert(v[w].sid != v[i as int].sid);
                        } else {
                            assert(v[i as int].sid != v[w].sid);
                        }
                    }
                }
                return Some(i);
            }
            i = i + 1;
        }
        None
    }

    /// Marks a session as belonging to a client that proved the login password.
    pub fn mark_authenticated(&mut self, sid: &str)
        requires
            old(self).wf(),
        ensures
            final(self).wf(),
            final(self).rate_view() == old(self).rate_view(),
            final(self).identity_secret() == old(self).identity_secret(),
            final(self).sessions_view() == match find_sid(old(self).sessions_view(), sid@) {
                Some(i) => {
                    let x = old(self).sessions_view()[i];
                    old(self).sessions_view().update(
                        i,
                        SessionView {
                            sid: x.sid,
                            c2s_key: x.c2s_key,
                            s2c_key: x.s2c_key,
                            last_seq: x.last_seq,
                            recv_prefix: x.recv_prefix,
                            next_seq: x.next_seq,
                            send_prefix: x.send_prefix,
                            created_at: x.created_at,
                            requests: x.requests,
                            authenticated: true,
                            peer: x.peer,
                        },
                    )
                },
                None => old(self).sessions_view(),
            },
    {
        let ghost v = self.sessions_view();
        match self.find_index(sid) {
            Some(i) => {
                let mut s = self.sessions.remove(i);
                s.authenticated = true;
                self.sessions.insert(i, s);
                proof {
                    assert(self.sessions_view() =~= v.update(i as int, s@));
                    assert forall|a: int, b: int| 0 <= a < b < self.sessions_view().len() implies self.sessions_view()[a].sid != self.sessions_view()[b].sid by {
                        assert(self.sessions_view()[a].sid == v[a].sid);
                        assert(self.sessions_view()[b].sid == v[b].sid);
                    }
                    assert forall|k: int| 0 <= k < self.sessions_view().len() implies session_ok(#[trigger] self.sessions_view()[k]) by {
                        assert(session_ok(v[k]));
                    }
                }
            },
            None => {},
        }
    }

    /// Whether a session belongs to a client that proved the login password.
    pub fn is_authenticated(&self, sid: &str) -> (b: bool)
        requires
            self.wf(),
        ensures
            b == match find_sid(self.sessions_view(), sid@) {
                Some(i) => self.sessions_view()[i].authenticated,
                None => false,
            },
    {
        match self.find_index(sid) {
            Some(i) => self.sessions[i].authenticated,
            None => false,
        }
    }

    /// Ends one session.
    pub fn destroy(&mut self, sid: &str)
        requires
            old(self).wf(),
        ensures
            final(self).wf(),
            final(self).rate_view() == old(self).rate_view(),
            final(self).identity_secret() == old(self).identity_secret(),
            final(self).sessions_view() == match find_sid(old(self).sessions_view(), sid@) {
                Some(i) => old(self).sessions_view().remove(i),
                None => old(self).sessions_view(),
            },
    {
        let ghost v = self.sessions_view();
        match self.find_index(sid) {
            Some(i) => {
                let _ = self.sessions.remove(i);
                proof {
                    assert(self.sessions_view() =~= v.remove(i as int));
                    lemma_remove_keeps(v, i as int);
                }
            },
            None => {},
        }
    }

    /// Ends every session; returns how many there were.
    pub fn destroy_all(&mut self) -> (n: usize)
        requires
            old(self).wf(),
        ensures
            final(self).wf(),
            n == old(self).sessions_view().len(),
            final(self).sessions_view() == Seq::<SessionView>::empty(),
            final(self).rate_view() == old(self).rate_view(),
            final(self).identity_secret() == old(self).identity_secret(),
    {
        let n = self.sessions.len();
        self.sessions.clear();
        assert(self.sessions_view() =~= Seq::<SessionView>::empty());
        n
    }

    /// Ends every session but `keep`; returns how many ended.
    pub fn destroy_all_except(&mut self, keep: &str) -> (n: usize)
        requires
            old(self).wf(),
        ensures
            final(self).wf(),
            final(self).sessions_view() == kept(old(self).sessions_view(), has_sid(keep@)),
            n == old(self).sessions_view().len() - final(self).sessions_view().len(),
            final(self).rate_view() == old(self).rate_view(),
            final(self).identity_secret() == old(self).identity_secret(),
    {
        let ghost orig = self.sessions_view();
        let ghost p = has_sid(keep@);
        let before = self.sessions.len();
        let mut i: usize = 0;
        let ghost mut j: int = 0;
        while i < self.sessions.len()
            invariant
                self.wf(),
                self.rate_view() == old(self).rate_view(),
                self.identity_secret() == old(self).identity_secret(),
                orig == old(self).sessions_view(),
                p == has_sid(keep@),
                before == orig.len(),
                0 <= j <= orig.len(),
                i == kept(orig.take(j), p).len(),
                self.sessions_view() == kept(orig.take(j), p) + orig.skip(j),
            decreases self.sessions@.len() - i,
        {
            proof {
                lemma_kept_step(orig, p, j);
                assert(self.sessions_view()[i as int] == orig[j]);
            }
            if str_eq(self.sessions[i].sid.as_str(), keep) {
                proof {
                    let kk = kept(orig.take(j), p);
                    assert(p(orig[j]));
                    assert(kept(orig.take(j + 1), p) == kk.push(orig[j]));
                    assert(orig.skip(j) =~= seq![orig[j]] + orig.skip(j + 1));
                    assert(self.sessions_view() =~= kk.push(orig[j]) + orig.skip(j + 1));
                    j = j + 1;
                }
                i = i + 1;
            } else {
                let ghost v = self.sessions_view();
                let _ = self.sessions.remove(i);
                proof {
                    let kk = kept(orig.take(j), p);
                    assert(!p(orig[j]));
                    assert(kept(orig.take(j + 1), p) == kk);
                    assert(self.sessions_view() =~= v.remove(i as int));
                    lemma_remove_keeps(v, i as int);
                    assert(v.remove(i as int) =~= kk + orig.skip(j + 1));
                    j = j + 1;
                }
            }
        }
        proof {
            assert(j == orig.len());
            assert(orig.take(j) =~= orig);
            assert(self.sessions_view() =~= kept(orig, p));
            lemma_kept_len(orig, p);
        }
        before - self.sessions.len()
    }
}

impl CryptoManager {
    /// Decrypts a request body of session `sid` sent with sequence number
    /// `seq`, at time `now`: an unknown or expired session, an exhausted
    /// session, a sequence number that does not increase and a tag that does
    /// not verify are refused (an expired session is dropped); only an
    /// accepted request advances the sequence window and the request count.
    pub fn decrypt_request_at(&mut self, now: i64, sid: &str, seq: u64, ciphertext: &[u8]) -> (r: Result<
        (Vec<u8>, u64),
        CryptoError,
    >)
        requires
            old(self).wf(),
            now >= 0,
        ensures
            final(self).wf(),
            (final(self).sessions_view(), decrypt_result_view(r)) == decrypt_outcome(
                old(self).sessions_view(),
                now,
                sid@,
                seq,
                ciphertext@,
            ),
            (forall|k: int|
                0 <= k < old(self).sessions_view().len() ==> old(self).sessions_view()[k].sid != sid@)
                ==> (r == Err::<(Vec<u8>, u64), CryptoError>(CryptoError::NoSession) && final(self).sessions_view() == old(self).sessions_view()),
            (exists|i: int|
                0 <= i < old(self).sessions_view().len() && old(self).sessions_view()[i].sid == sid@ && now
                    - old(self).sessions_view()[i].created_at < SESSION_TTL_SECS && old(self).sessions_view()[i].requests < SESSION_MAX_REQUESTS && seq <= old(self).sessions_view()[i].last_seq) ==> (r == Err::<(Vec<u8>, u64), CryptoError>(
                CryptoError::Replay,
            ) && final(self).sessions_view() == old(self).sessions_view()),
            r is Ok ==> (exists|i: int|
                0 <= i < old(self).sessions_view().len() && old(self).sessions_view()[i].sid == sid@ && now
                    - old(self).sessions_view()[i].created_at < SESSION_TTL_SECS && old(self).sessions_view()[i].requests < SESSION_MAX_REQUESTS && seq > old(self).sessions_view()[i].last_seq && final(self).sessions_view().len() == old(self).sessions_view().len() && final(self).sessions_view()[i].last_seq == seq && final(self).sessions_view()[i].requests == old(self).sessions_view()[i].requests + 1 && r->Ok_0.1
                    == seq),
            session_expired(old(self).sessions_view(), sid@, now) ==> (r == Err::<
                (Vec<u8>, u64),
                CryptoError,
            >(CryptoError::NoSession) && forall|k: int|
                0 <= k < final(self).sessions_view().len() ==> (
                #[trigger] final(self).sessions_view()[k]).sid != sid@),
            final(self).rate_view() == old(self).rate_view(),
            final(self).identity_secret() == old(self).identity_secret(),
    {
        let ghost v = self.sessions_view();
        proof {
            if session_expired(v, sid@, now) {
                lemma_expired_session_dropped(v, now, sid@, seq, ciphertext@);
            }
            lemma_request_window(v, now, sid@, seq, ciphertext@);
        }
        let i = match self.find_index(sid) {
            Some(i) => i,
            None => return Err(CryptoError::NoSession),
        };
        proof {
            assert(v[i as int] == self.sessions[i as int]@);
            assert(session_ok(v[i as int]));
        }
        if now - self.sessions[i].created_at >= SESSION_TTL_SECS {
            let _ = self.sessions.remove(i);
            proof {
                assert(self.sessions_view() =~= v.remove(i as int));
                lemma_remove_keeps(v, i as int);
            }
            return Err(CryptoError::NoSession);
        }
        if self.sessions[i].requests >= SESSION_MAX_REQUESTS {
            return Err(CryptoError::Exhausted);
        }
        if seq <= self.sessions[i].recv.last_seq {
            return Err(CryptoError::Replay);
        }
        let nonce = Self::build_nonce(self.sessions[i].recv.nonce_prefix.as_slice(), seq);
        let aad = Self::build_aad(sid, 0, seq);
        let plain = match gcm_open(self.sessions[i].c2s_key.as_slice(), nonce.as_slice(), aad.as_slice(), ciphertext) {
            Some(p) => p,
            None => return Err(CryptoError::AuthFailed),
        };
        let mut s = self.sessions.remove(i);
        s.recv.last_seq = seq;
        s.requests = s.requests + 1;
        self.sessions.insert(i, s);
        proof {
            assert(self.sessions_view() =~= v.update(i as int, s@));
            assert forall|a: int, b: int| 0 <= a < b < self.sessions_view().len() implies self.sessions_view()[a].sid != self.sessions_view()[b].sid by {
                assert(self.sessions_view()[a].sid == v[a].sid);
                assert(self.sessions_view()[b].sid == v[b].sid);
            }
            assert forall|k: int| 0 <= k < self.sessions_view().len() implies session_ok(#[trigger] self.sessions_view()[k]) by {
                assert(session_ok(v[k]));
            }
        }
        Ok((plain, seq))
    }

    /// The GCM nonce: the four-byte prefix, then the sequence number
    /// big-endian.
    pub fn build_nonce(prefix: &[u8], seq: u64) -> (n: Vec<u8>)
        requires
            prefix@.len() == 4,
        ensures
            n@ == nonce_spec(prefix@, seq),
            n@.len() == 12,
    {
        let mut n: Vec<u8> = Vec::new();
        push_bytes(&mut n, prefix);
        push_be(&mut n, seq);
        n
    }

    /// The associated data: session id, direction byte, sequence number
    /// big-endian.
    pub fn build_aad(sid: &str, direction: u8, seq: u64) -> (a: Vec<u8>)
        ensures
            a@ == aad_spec(sid@, direction, seq),
    {
        let mut a: Vec<u8> = Vec::new();
        push_bytes(&mut a, sid.as_bytes());
        a.push(direction);
        push_be(&mut a, seq);
        a
    }

    /// Encrypts a response body of session `sid` for the request with
    /// sequence number `req_seq`: the response takes the session's next
    /// sending number (which then advances) and its associated data also
    /// binds the request's number.
    pub fn encrypt_response(&mut self, sid: &str, req_seq: u64, plaintext: &[u8]) -> (r: Result<
        Vec<u8>,
        CryptoError,
    >)
        requires
            old(self).wf(),
            plaintext@.len() <= gcm_max_plaintext(),
        ensures
            final(self).wf(),
            (final(self).sessions_view(), encrypt_result_view(r)) == encrypt_outcome(
                old(self).sessions_view(),
                sid@,
                req_seq,
                plaintext@,
            ),
            r matches Ok(ct) ==> ({
                let x = old(self).sessions_view()[find_sid(old(self).sessions_view(), sid@)->0];
                gcm_open_spec(
                    x.s2c_key,
                    nonce_spec(x.send_prefix, x.next_seq),
                    aad_spec(sid@, 1, x.next_seq) + be_bytes(req_seq),
                    ct@,
                ) == Some(plaintext@)
            }),
            final(self).rate_view() == old(self).rate_view(),
            final(self).identity_secret() == old(self).identity_secret(),
    {
        let ghost v = self.sessions_view();
        let i = match self.find_index(sid) {
            Some(i) => i,
            None => return Err(CryptoError::NoSession),
        };
        proof {
            assert(v[i as int] == self.sessions[i as int]@);
            assert(session_ok(v[i as int]));
        }
        let seq = self.sessions[i].send.next_seq;
        if seq == u64::MAX {
            return Err(CryptoError::Exhausted);
        }
        let nonce = Self::build_nonce(self.sessions[i].send.nonce_prefix.as_slice(), seq);
        let mut aad = Self::build_aad(sid, 1, seq);
        push_be(&mut aad, req_seq);
        let ct = gcm_seal(self.sessions[i].s2c_key.as_slice(), nonce.as_slice(), aad.as_slice(), plaintext);
        let mut s = self.sessions.remove(i);
        s.send.next_seq = seq + 1;
        self.sessions.insert(i, s);
        proof {
            assert(self.sessions_view() =~= v.update(i as int, s@));
            assert forall|a: int, b: int| 0 <= a < b < self.sessions_view().len() implies self.sessions_view()[a].sid != self.sessions_view()[b].sid by {
                assert(self.sessions_view()[a].sid == v[a].sid);
                assert(self.sessions_view()[b].sid == v[b].sid);
            }
            assert forall|k: int| 0 <= k < self.sessions_view().len() implies session_ok(#[trigger] self.sessions_view()[k]) by {
                assert(session_ok(v[k]));
            }
        }
        Ok(ct)
    }
}

/// The current Unix time in seconds, at most `i64::MAX`.
pub fn now_unix() -> (t: i64)
    ensures
        t >= 0,
{
    let s = crate::protocol::now_seconds();
    if s > 9223372036854775807u64 {
        9223372036854775807i64
    } else {
        s as i64
    }
}

impl CryptoManager {
    /// Establishes a session from the client's public key and nonce, given
    /// the server's ephemeral secret, the server nonce, the new session id
    /// and the time.
    pub fn handshake_with(
        &mut self,
        now: i64,
        eph_secret: &[u8; 32],
        server_nonce: [u8; 16],
        sid: String,
        client_pub: &[u8; 32],
        client_nonce: &[u8; 16],
        peer: &str,
    ) -> (r: Result<HandshakeOutput, CryptoError>)
        requires
            old(self).wf(),
            now >= 0,
            utf8(sid@).len() <= 1024,
        ensures
            final(self).wf(),
            (final(self).sessions_view(), handshake_result_view(r)) == handshake_outcome(
                old(self).sessions_view(),
                now,
                eph_secret@,
                server_nonce@,
                sid@,
                client_pub@,
                client_nonce@,
                peer@,
            ),
            (forall|k: int| 0 <= k < 32 ==> client_pub@[k] == 0u8) ==> (r == Err::<
                HandshakeOutput,
                CryptoError,
            >(CryptoError::AuthFailed) && final(self).sessions_view() == old(self).sessions_view()),
            final(self).rate_view() == old(self).rate_view(),
            final(self).identity_secret() == old(self).identity_secret(),
    {
        let server_pub = x25519_public_from_secret(eph_secret);
        let mut shared = match x25519_diffie_hellman(eph_secret, client_pub) {
            Some(s) => s,
            None => return Err(CryptoError::AuthFailed),
        };
        let mut salt: Vec<u8> = Vec::new();
        push_bytes(&mut salt, client_pub);
        push_bytes(&mut salt, &server_pub);
        push_bytes(&mut salt, client_nonce);
        push_bytes(&mut salt, &server_nonce);
        let ghost sh = shared@;
        assert(salt@ =~= handshake_salt(client_pub@, server_pub@, client_nonce@, server_nonce@));
        let mut master = hkdf_sha256(shared.as_slice(), salt.as_slice(), "taygedo/v1/aead".as_bytes(), 32);
        let c2s = hkdf_sha256(master.as_slice(), salt.as_slice(), "taygedo/v1/c2s".as_bytes(), 32);
        let s2c = hkdf_sha256(master.as_slice(), salt.as_slice(), "taygedo/v1/s2c".as_bytes(), 32);
        let c2s_prefix = hkdf_sha256(c2s.as_slice(), salt.as_slice(), "taygedo/v1/nonce/c2s".as_bytes(), 4);
        let s2c_prefix = hkdf_sha256(s2c.as_slice(), salt.as_slice(), "taygedo/v1/nonce/s2c".as_bytes(), 4);
        wipe(&mut shared);
        wipe(&mut master);
        let session = CryptoSession {
            sid: sid.clone(),
            c2s_key: c2s,
            s2c_key: s2c,
            recv: RecvState { last_seq: 0, nonce_prefix: c2s_prefix },
            send: SendState { next_seq: 1, nonce_prefix: s2c_prefix },
            created_at: now,
            requests: 0,
            authenticated: false,
            peer: peer.to_owned(),
        };
        assert(session@ == new_session_spec(sid@, sh, salt@, now, peer@));
        self.retain_live_other(now, sid.as_str());
        let ghost mid = self.sessions_view();
        self.sessions.push(session);
        proof {
            let v = self.sessions_view();
            assert(v =~= mid.push(session@));
            let old_v = mid;
            assert(forall|k: int| 0 <= k < old_v.len() ==> old_v[k].sid != sid@);
            assert forall|a: int, b: int| 0 <= a < b < v.len() implies v[a].sid != v[b].sid by {
                if b == v.len() - 1 {
                    assert(old_v[a].sid != sid@);
                } else {
                    assert(old_v[a].sid != old_v[b].sid);
                }
            }
            assert forall|k: int| 0 <= k < v.len() implies session_ok(#[trigger] v[k]) by {
                if k < v.len() - 1 {
                    assert(session_ok(old_v[k]));
                }
            }
        }
        Ok(HandshakeOutput { sid, server_pub, server_nonce, expires_in: SESSION_TTL_SECS })
    }

    /// Drops the expired sessions and any session with id `sid`.
    fn retain_live_other(&mut self, now: i64, sid: &str)
        requires
            old(self).wf(),
            now >= 0,
        ensures
            final(self).wf(),
            final(self).sessions_view() == kept(old(self).sessions_view(), live_other(now, sid@)),
            forall|k: int|
                0 <= k < final(self).sessions_view().len() ==> (#[trigger] final(self).sessions_view()[k]).sid
                    != sid@,
            final(self).rate_view() == old(self).rate_view(),
            final(self).identity_secret() == old(self).identity_secret(),
    {
        let ghost orig = self.sessions_view();
        let ghost p = live_other(now, sid@);
        let mut i: usize = 0;
        let ghost mut j: int = 0;
        while i < self.sessions.len()
            invariant
                self.wf(),
                now >= 0,
                self.rate_view() == old(self).rate_view(),
                self.identity_secret() == old(self).identity_secret(),
                orig == old(self).sessions_view(),
                p == live_other(now, sid@),
                0 <= j <= orig.len(),
                i == kept(orig.take(j), p).len(),
                self.sessions_view() == kept(orig.take(j), p) + orig.skip(j),
                forall|k: int| 0 <= k < i ==> (#[trigger] self.sessions_view()[k]).sid != sid@,
            decreases self.sessions@.len() - i,
        {
            proof {
                lemma_kept_step(orig, p, j);
                assert(self.sessions_view()[i as int] == orig[j]);
                assert(session_ok(self.sessions_view()[i as int]));
            }
            let live = now - self.sessions[i].created_at < SESSION_TTL_SECS;
            if live && !str_eq(self.sessions[i].sid.as_str(), sid) {
                proof {
                    let kk = kept(orig.take(j), p);
                    assert(p(orig[j]));
                    assert(kept(orig.take(j + 1), p) == kk.push(orig[j]));
                    assert(orig.skip(j) =~= seq![orig[j]] + orig.skip(j + 1));
                    assert(self.sessions_view() =~= kk.push(orig[j]) + orig.skip(j + 1));
                    j = j + 1;
                }
                i = i + 1;
            } else {
                let ghost v = self.sessions_view();
                let _ = self.sessions.remove(i);
                proof {
                    let kk = kept(orig.take(j), p);
                    assert(!p(orig[j]));
                    assert(kept(orig.take(j + 1), p) == kk);
                    assert(self.sessions_view() =~= v.remove(i as int));
                    lemma_remove_keeps(v, i as int);
                    assert(v.remove(i as int) =~= kk + orig.skip(j + 1));
                    assert forall|k: int| 0 <= k < i implies (#[trigger] self.sessions_view()[k]).sid != sid@ by {
                        assert(self.sessions_view()[k] == v[k]);
                    }
                    j = j + 1;
                }
            }
        }
        proof {
            assert(orig.take(j) =~= orig);
            assert(self.sessions_view() =~= kept(orig, p));
        }
    }

    /// Establishes a session with a fresh ephemeral key pair, server nonce
    /// and 32-hex-digit session id.
    pub fn handshake(&mut self, client_pub: &[u8; 32], client_nonce: &[u8; 16], peer: &str) -> (r: Result<
        HandshakeOutput,
        CryptoError,
    >)
        requires
            old(self).wf(),
        ensures
            final(self).wf(),
            exists|eph: Seq<u8>, server_nonce: Seq<u8>, sid: Seq<char>, now: i64|
                server_nonce.len() == 16 && sid.len() == 32 && is_lower_hex(sid) && now >= 0 && (
                final(self).sessions_view(),
                handshake_result_view(r),
            ) == handshake_outcome(
                old(self).sessions_view(),
                now,
                eph,
                server_nonce,
                sid,
                client_pub@,
                client_nonce@,
                peer@,
            ),
            (forall|k: int| 0 <= k < 32 ==> client_pub@[k] == 0u8) ==> (r == Err::<
                HandshakeOutput,
                CryptoError,
            >(CryptoError::AuthFailed) && final(self).sessions_view() == old(self).sessions_view()),
            final(self).rate_view() == old(self).rate_view(),
            final(self).identity_secret() == old(self).identity_secret(),
    {
        let eph = x25519_generate_secret();
        let server_nonce: [u8; 16] = to_array(random_bytes(16));
        let sid = crate::crypto::random_hex(16);
        proof {
            let b = choose|b: Seq<u8>| b.len() == 16 && sid@ == hex_of(b);
            crate::text::lemma_hex_len(b);
            crate::text::lemma_hex_ascii(b);
        }
        let now = now_unix();
        self.handshake_with(now, &eph, server_nonce, sid, client_pub, client_nonce, peer)
    }

    /// Decrypts a request body at the current time (see `decrypt_request_at`).
    pub fn decrypt_request(&mut self, sid: &str, seq: u64, ciphertext: &[u8]) -> (r: Result<
        (Vec<u8>, u64),
        CryptoError,
    >)
        requires
            old(self).wf(),
        ensures
            final(self).wf(),
            exists|now: i64|
                now >= 0 && (final(self).sessions_view(), decrypt_result_view(r)) == decrypt_outcome(
                    old(self).sessions_view(),
                    now,
                    sid@,
                    seq,
                    ciphertext@,
                ),
            final(self).rate_view() == old(self).rate_view(),
            final(self).identity_secret() == old(self).identity_secret(),
    {
        let now = now_unix();
        self.decrypt_request_at(now, sid, seq, ciphertext)
    }
}

impl CryptoManager {
    /// Handshake rate check for `peer` at time `now`; `false` means refuse.
    /// Records older than four windows are dropped on the way.
    pub fn allow_handshake_at(&mut self, peer: &str, now: i64) -> (allowed: bool)
        requires
            old(self).wf(),
            now >= 0,
        ensures
            final(self).wf(),
            (final(self).rate_view(), allowed) == allow_outcome(old(self).rate_view(), peer@, now),
            final(self).sessions_view() == old(self).sessions_view(),
            final(self).identity_secret() == old(self).identity_secret(),
    {
        let ghost orig = self.rate_view();
        let ghost p = rate_fresh(now);
        let mut i: usize = 0;
        let ghost mut j: int = 0;
        while i < self.handshake_rate.len()
            invariant
                self.wf(),
                now >= 0,
                self.sessions_view() == old(self).sessions_view(),
                self.identity_secret() == old(self).identity_secret(),
                orig == old(self).rate_view(),
                p == rate_fresh(now),
                0 <= j <= orig.len(),
                i == kept(orig.take(j), p).len(),
                self.rate_view() == kept(orig.take(j), p) + orig.skip(j),
            decreases self.handshake_rate@.len() - i,
        {
            proof {
                lemma_kept_step(orig, p, j);
                assert(self.rate_view()[i as int] == orig[j]);
            }
            if now - self.handshake_rate[i].window_start < HS_WINDOW_SECS * 4 {
                proof {
                    let kk = kept(orig.take(j), p);
                    assert(p(orig[j]));
                    assert(orig.skip(j) =~= seq![orig[j]] + orig.skip(j + 1));
                    assert(self.rate_view() =~= kk.push(orig[j]) + orig.skip(j + 1));
                    j = j + 1;
                }
                i = i + 1;
            } else {
                let ghost v = self.rate_view();
                let _ = self.handshake_rate.remove(i);
                proof {
                    let kk = kept(orig.take(j), p);
                    assert(!p(orig[j]));
                    assert(self.rate_view() =~= v.remove(i as int));
                    assert(v.remove(i as int) =~= kk + orig.skip(j + 1));
                    let w = self.rate_view();
                    assert forall|a: int, b: int| 0 <= a < b < w.len() implies w[a].0 != w[b].0 by {
                        let a2 = if a < i { a } else { a + 1 };
                        let b2 = if b < i { b } else { b + 1 };
                        assert(w[a] == v[a2]);
                        assert(w[b] == v[b2]);
                    }
                    assert forall|k: int| 0 <= k < w.len() implies (#[trigger] w[k]).2 >= 0 by {
                        let k2 = if k < i { k } else { k + 1 };
                        assert(w[k] == v[k2]);
                    }
                    j = j + 1;
                }
            }
        }
        proof {
            assert(orig.take(j) =~= orig);
            assert(self.rate_view() =~= kept(orig, p));
        }
        let ghost fresh = self.rate_view();
        let mut k: usize = 0;
        while k < self.handshake_rate.len() && !str_eq(self.handshake_rate[k].peer.as_str(), peer)
            invariant
                fresh == self.rate_view(),
                k <= fresh.len(),
                forall|m: int| 0 <= m < k ==> fresh[m].0 != peer@,
            decreases self.handshake_rate@.len() - k,
        {
            k = k + 1;
        }
        if k == self.handshake_rate.len() {
            self.handshake_rate.push(RateEntry { peer: peer.to_owned(), count: 1, window_start: now });
            proof {
                let w = self.rate_view();
                assert(w =~= fresh.push((peer@, 1u32, now)));
                assert forall|a: int, b: int| 0 <= a < b < w.len() implies w[a].0 != w[b].0 by {
                    if b == w.len() - 1 {
                        assert(fresh[a].0 != peer@);
                    } else {
                        assert(fresh[a].0 != fresh[b].0);
                    }
                }
                assert forall|m: int| 0 <= m < w.len() implies (#[trigger] w[m]).2 >= 0 by {
                    if m < fresh.len() {
                        assert(w[m] == fresh[m]);
                    }
                }
            }
            return true;
        }
        proof {
            let w = choose|m: int| 0 <= m < fresh.len() && fresh[m].0 == peer@;
            assert(fresh[k as int].0 == peer@);
            if w != k {
                if w < k {
                    assert(fresh[w].0 != fresh[k as int].0);
                } else {
                    assert(fresh[k as int].0 != fresh[w].0);
                }
            }
            assert(find_peer(fresh, peer@) == Some(k as int));
        }
        let mut e = self.handshake_rate.remove(k);
        let allowed = if now - e.window_start >= HS_WINDOW_SECS {
            e.count = 1;
            e.window_start = now;
            true
        } else {
            if e.count < u32::MAX {
                e.count = e.count + 1;
            }
            e.count <= HS_MAX_PER_WINDOW
        };
        self.handshake_rate.insert(k, e);
        proof {
            let w = self.rate_view();
            assert(w =~= fresh.update(k as int, (e.peer@, e.count, e.window_start)));
            assert forall|a: int, b: int| 0 <= a < b < w.len() implies w[a].0 != w[b].0 by {
                assert(w[a].0 == fresh[a].0);
                assert(w[b].0 == fresh[b].0);
            }
            assert forall|m: int| 0 <= m < w.len() implies (#[trigger] w[m]).2 >= 0 by {
                if m != k {
                    assert(w[m] == fresh[m]);
                }
            }
        }
        allowed
    }

    /// Handshake rate check for `peer` at the current time.
    pub fn allow_handshake(&mut self, peer: &str) -> (allowed: bool)
        requires
            old(self).wf(),
        ensures
            final(self).wf(),
            exists|now: i64|
                now >= 0 && (final(self).rate_view(), allowed) == allow_outcome(
                    old(self).rate_view(),
                    peer@,
                    now,
                ),
            final(self).sessions_view() == old(self).sessions_view(),
            final(self).identity_secret() == old(self).identity_secret(),
    {
        let now = now_unix();
        self.allow_handshake_at(peer, now)
    }
}

/// Wire form of a ciphertext: unpadded URL-safe Base64 of `ciphertext || tag`.
pub fn encode_envelope(ciphertext: &[u8]) -> (s: String)
    ensures
        s@ == b64url_encode_spec(ciphertext@),
{
    b64url_encode(ciphertext)
}

/// Reads an envelope: the trimmed text as unpadded URL-safe Base64.
pub fn decode_envelope(s: &str) -> (r: Result<Vec<u8>, CryptoError>)
    ensures
        match r {
            Ok(b) => b64url_decode_spec(trim(s@)) == Some(b@),
            Err(e) => e == CryptoError::Malformed && b64url_decode_spec(trim(s@)) is None,
        },
{
    let t = string_from_chars(&trim_chars(&chars_of(s)));
    match b64url_decode(t.as_str()) {
        Some(b) => Ok(b),
        None => Err(CryptoError::Malformed),
    }
}

/// Reads a fixed-length handshake field: the trimmed text as unpadded
/// URL-safe Base64 of exactly `N` bytes.
pub fn decode_fixed<const N: usize>(s: &str) -> (r: Result<[u8; N], CryptoError>)
    ensures
        match r {
            Ok(a) => b64url_decode_spec(trim(s@)) == Some(a@),
            Err(e) => e == CryptoError::Malformed && !(b64url_decode_spec(trim(s@)) matches Some(
                b,
            ) && b.len() == N),
        },
{
    let t = string_from_chars(&trim_chars(&chars_of(s)));
    let raw = match b64url_decode(t.as_str()) {
        Some(b) => b,
        None => return Err(CryptoError::Malformed),
    };
    if raw.len() != N {
        return Err(CryptoError::Malformed);
    }
    Ok(to_array(raw))
}

/// Encodes a fixed-length field as unpadded URL-safe Base64.
pub fn encode_fixed(bytes: &[u8]) -> (s: String)
    ensures
        s@ == b64url_encode_spec(bytes@),
{
    b64url_encode(bytes)
}

/// Removing a session keeps the ids distinct and the sessions well formed.
proof fn lemma_remove_keeps(v: Seq<SessionView>, i: int)
    requires
        0 <= i < v.len(),
        unique_sids(v),
        forall|k: int| 0 <= k < v.len() ==> session_ok(#[trigger] v[k]),
    ensures
        unique_sids(v.remove(i)),
        forall|k: int| 0 <= k < v.remove(i).len() ==> session_ok(#[trigger] v.remove(i)[k]),
{
    let w = v.remove(i);
    assert forall|a: int, b: int| 0 <= a < b < w.len() implies w[a].sid != w[b].sid by {
        let a2 = if a < i { a } else { a + 1 };
        let b2 = if b < i { b } else { b + 1 };
        assert(w[a] == v[a2]);
        assert(w[b] == v[b2]);
    }
    assert forall|k: int| 0 <= k < w.len() implies session_ok(#[trigger] w[k]) by {
        let k2 = if k < i { k } else { k + 1 };
        assert(w[k] == v[k2]);
    }
}

/// `kept` is no longer than the sequence.
pub proof fn lemma_kept_len<A>(s: Seq<A>, p: spec_fn(A) -> bool)
    ensures
        kept(s, p).len() <= s.len(),
    decreases s.len(),
{
    if s.len() > 0 {
        lemma_kept_len(s.drop_last(), p);
    }
}

/// Updating a session without changing its id keeps the ids distinct and
/// the session at the same index.
proof fn lemma_update_same_sid(s: Seq<SessionView>, i: int, x: SessionView)
    requires
        unique_sids(s),
        0 <= i < s.len(),
        x.sid == s[i].sid,
    ensures
        unique_sids(s.update(i, x)),
        find_sid(s.update(i, x), x.sid) == Some(i),
{
    let t = s.update(i, x);
    assert forall|a: int, b: int| 0 <= a < b < t.len() implies t[a].sid != t[b].sid by {
        assert(t[a].sid == s[a].sid);
        assert(t[b].sid == s[b].sid);
    }
    let w = choose|k: int| 0 <= k < t.len() && t[k].sid == x.sid;
    assert(t[i].sid == x.sid);
    if w != i {
        if w < i {
            assert(t[w].sid != t[i].sid);
        } else {
            assert(t[i].sid != t[w].sid);
        }
    }
}

/// Replay protection: once a request with sequence number `seq` has been
/// accepted, no request of that session with a number up to `seq` is ever
/// accepted again; while the session is live and not exhausted it is
/// refused as a replay.
pub proof fn lemma_replay_rejected(
    s: Seq<SessionView>,
    now: i64,
    sid: Seq<char>,
    seq: u64,
    ct: Seq<u8>,
    now2: i64,
    seq2: u64,
    ct2: Seq<u8>,
)
    requires
        unique_sids(s),
        decrypt_outcome(s, now, sid, seq, ct).1 is Ok,
        seq2 <= seq,
    ensures
        !(decrypt_outcome(decrypt_outcome(s, now, sid, seq, ct).0, now2, sid, seq2, ct2).1 is Ok),
        ({
            let s2 = decrypt_outcome(s, now, sid, seq, ct).0;
            let i = find_sid(s2, sid)->0;
            now2 - s2[i].created_at < SESSION_TTL_SECS && s2[i].requests < SESSION_MAX_REQUESTS
                ==> decrypt_outcome(s2, now2, sid, seq2, ct2).1 == Err::<(Seq<u8>, u64), CryptoError>(
                CryptoError::Replay,
            )
        }),
{
    let i = find_sid(s, sid)->0;
    let x = s[i];
    let p = gcm_open_spec(x.c2s_key, nonce_spec(x.recv_prefix, seq), aad_spec(sid, 0, seq), ct)->0;
    let y = SessionView {
        sid: x.sid,
        c2s_key: x.c2s_key,
        s2c_key: x.s2c_key,
        last_seq: seq,
        recv_prefix: x.recv_prefix,
        next_seq: x.next_seq,
        send_prefix: x.send_prefix,
        created_at: x.created_at,
        requests: (x.requests + 1) as u64,
        authenticated: x.authenticated,
        peer: x.peer,
    };
    assert(s[i].sid == sid);
    lemma_update_same_sid(s, i, y);
}

/// A request sealed under a live session's receiving key, nonce prefix and
/// associated data, with a sequence number above the last accepted one, is
/// accepted: the plaintext comes back with its number, and that number
/// becomes the session's last accepted one.
pub proof fn lemma_sealed_request_accepted(
    s: Seq<SessionView>,
    now: i64,
    i: int,
    seq: u64,
    ct: Seq<u8>,
    msg: Seq<u8>,
)
    requires
        unique_sids(s),
        0 <= i < s.len(),
        now - s[i].created_at < SESSION_TTL_SECS,
        s[i].requests < SESSION_MAX_REQUESTS,
        seq > s[i].last_seq,
        gcm_open_spec(s[i].c2s_key, nonce_spec(s[i].recv_prefix, seq), aad_spec(s[i].sid, 0, seq), ct)
            == Some(msg),
    ensures
        decrypt_outcome(s, now, s[i].sid, seq, ct).1 == Ok::<(Seq<u8>, u64), CryptoError>((msg, seq)),
        decrypt_outcome(s, now, s[i].sid, seq, ct).0[i].last_seq == seq,
        decrypt_outcome(s, now, s[i].sid, seq, ct).0.len() == s.len(),
{
    let c = choose|c: int| 0 <= c < s.len() && s[c].sid == s[i].sid;
    assert(c == i);
}

proof fn lemma_be_bytes_injective(a: u64, b: u64)
    requires
        be_bytes(a) == be_bytes(b),
    ensures
        a == b,
{
    assert(be_bytes(a)[0] == be_bytes(b)[0]);
    assert(be_bytes(a)[1] == be_bytes(b)[1]);
    assert(be_bytes(a)[2] == be_bytes(b)[2]);
    assert(be_bytes(a)[3] == be_bytes(b)[3]);
    assert(be_bytes(a)[4] == be_bytes(b)[4]);
    assert(be_bytes(a)[5] == be_bytes(b)[5]);
    assert(be_bytes(a)[6] == be_bytes(b)[6]);
    assert(be_bytes(a)[7] == be_bytes(b)[7]);
    assert(a == b) by (bit_vector)
        requires
            (a >> 56u64) as u8 == (b >> 56u64) as u8,
            (a >> 48u64) as u8 == (b >> 48u64) as u8,
            (a >> 40u64) as u8 == (b >> 40u64) as u8,
            (a >> 32u64) as u8 == (b >> 32u64) as u8,
            (a >> 24u64) as u8 == (b >> 24u64) as u8,
            (a >> 16u64) as u8 == (b >> 16u64) as u8,
            (a >> 8u64) as u8 == (b >> 8u64) as u8,
            a as u8 == b as u8,
    ;
}

/// Under one nonce prefix, different sequence numbers give different
/// nonces.
pub proof fn lemma_nonce_unique(prefix: Seq<u8>, a: u64, b: u64)
    requires
        a != b,
    ensures
        nonce_spec(prefix, a) != nonce_spec(prefix, b),
{
    if nonce_spec(prefix, a) == nonce_spec(prefix, b) {
        assert(be_bytes(a) =~= nonce_spec(prefix, a).subrange(prefix.len() as int, prefix.len() + 8int));
        assert(be_bytes(b) =~= nonce_spec(prefix, b).subrange(prefix.len() as int, prefix.len() + 8int));
        lemma_be_bytes_injective(a, b);
    }
}

/// A response is sealed under the session's next sending number, which
/// then advances by one: two responses of a session never share a nonce.
pub proof fn lemma_response_counter_advances(s: Seq<SessionView>, i: int, req_seq: u64, pt: Seq<u8>)
    requires
        unique_sids(s),
        0 <= i < s.len(),
        s[i].next_seq < u64::MAX,
    ensures
        response_sealed_and_advanced(s, i, req_seq, pt),
{
    let c = choose|c: int| 0 <= c < s.len() && s[c].sid == s[i].sid;
    assert(c == i);
    lemma_nonce_unique(s[i].send_prefix, s[i].next_seq, (s[i].next_seq + 1) as u64);
}

/// What `lemma_response_counter_advances` states: the response is sealed
/// with nonce number `next_seq`, the session then sends with `next_seq + 1`,
/// whose nonce differs.
pub open spec fn response_sealed_and_advanced(s: Seq<SessionView>, i: int, req_seq: u64, pt: Seq<u8>) -> bool {
    let x = s[i];
    let out = encrypt_outcome(s, x.sid, req_seq, pt);
    &&& out.1 == Ok::<Seq<u8>, CryptoError>(
        gcm_seal_spec(
            x.s2c_key,
            nonce_spec(x.send_prefix, x.next_seq),
            aad_spec(x.sid, 1, x.next_seq) + be_bytes(req_seq),
            pt,
        ),
    )
    &&& out.0[i].next_seq == x.next_seq + 1
    &&& nonce_spec(out.0[i].send_prefix, out.0[i].next_seq) != nonce_spec(x.send_prefix, x.next_seq)
}

/// A handshake whose shared point is all zeros (a low-order client key) is
/// refused and leaves the sessions as they were.
pub proof fn lemma_low_order_refused(
    s: Seq<SessionView>,
    now: i64,
    eph_secret: Seq<u8>,
    server_nonce: Seq<u8>,
    sid: Seq<char>,
    client_pub: Seq<u8>,
    client_nonce: Seq<u8>,
    peer: Seq<char>,
)
    requires
        forall|i: int|
            0 <= i < crate::primitives::x25519_shared_spec(eph_secret, client_pub).len()
                ==> crate::primitives::x25519_shared_spec(eph_secret, client_pub)[i] == 0u8,
    ensures
        handshake_outcome(s, now, eph_secret, server_nonce, sid, client_pub, client_nonce, peer) == (
            s,
            Err::<HandshakeView, CryptoError>(CryptoError::AuthFailed),
        ),
{
}

/// The request window of a session: an unknown session is refused with
/// `NoSession`; in a live session a number not above the last accepted one
/// is refused as a replay and changes nothing; an accepted request had a
/// number above the last accepted one in a live session, which then takes
/// that number as its last one and counts one more request.
pub proof fn lemma_request_window(s: Seq<SessionView>, now: i64, sid: Seq<char>, seq: u64, ct: Seq<u8>)
    requires
        unique_sids(s),
    ensures
        (forall|k: int| 0 <= k < s.len() ==> s[k].sid != sid) ==> decrypt_outcome(s, now, sid, seq, ct)
            == (s, Err::<(Seq<u8>, u64), CryptoError>(CryptoError::NoSession)),
        (exists|i: int|
            0 <= i < s.len() && s[i].sid == sid && now - s[i].created_at < SESSION_TTL_SECS && s[i].requests
                < SESSION_MAX_REQUESTS && seq <= s[i].last_seq) ==> decrypt_outcome(s, now, sid, seq, ct)
            == (s, Err::<(Seq<u8>, u64), CryptoError>(CryptoError::Replay)),
        decrypt_outcome(s, now, sid, seq, ct).1 is Ok ==> (exists|i: int|
            0 <= i < s.len() && s[i].sid == sid && now - s[i].created_at < SESSION_TTL_SECS && s[i].requests
                < SESSION_MAX_REQUESTS && seq > s[i].last_seq && decrypt_outcome(s, now, sid, seq, ct).0.len()
                == s.len() && decrypt_outcome(s, now, sid, seq, ct).0[i].last_seq == seq && decrypt_outcome(
                s,
                now,
                sid,
                seq,
                ct,
            ).0[i].requests == s[i].requests + 1 && decrypt_outcome(s, now, sid, seq, ct).1->Ok_0.1
                == seq),
{
    if exists|i: int| 0 <= i < s.len() && s[i].sid == sid {
        let i = choose|i: int| 0 <= i < s.len() && s[i].sid == sid;
        let j = find_sid(s, sid)->0;
        assert(s[j].sid == sid);
        assert(i == j);
        assert forall|i2: int|
            0 <= i2 < s.len() && s[i2].sid == sid implies i2 == j by {
        }
    }
}

/// A handshake that succeeds adds one fresh session, last: it has the new
/// id, the peer and the handshake time, has accepted no request (its window
/// starts at 0), numbers its first response 1, has served no request and is
/// not authenticated; the session answer carries that id and the 30-minute
/// lifetime.
pub proof fn lemma_handshake_fresh_session(
    s: Seq<SessionView>,
    now: i64,
    eph_secret: Seq<u8>,
    server_nonce: Seq<u8>,
    sid: Seq<char>,
    client_pub: Seq<u8>,
    client_nonce: Seq<u8>,
    peer: Seq<char>,
)
    requires
        handshake_outcome(s, now, eph_secret, server_nonce, sid, client_pub, client_nonce, peer).1 is Ok,
    ensures
        ({
            let (t, r) = handshake_outcome(s, now, eph_secret, server_nonce, sid, client_pub, client_nonce, peer);
            &&& t.len() >= 1
            &&& t.last().sid == sid
            &&& t.last().peer == peer
            &&& t.last().created_at == now
            &&& t.last().last_seq == 0
            &&& t.last().next_seq == 1
            &&& t.last().requests == 0
            &&& !t.last().authenticated
            &&& r->Ok_0.0 == sid
            &&& r->Ok_0.3 == 30 * 60
        }),
{
}

/// The session `sid` exists and has lived `SESSION_TTL_SECS` or longer at
/// `now`.
pub open spec fn session_expired(s: Seq<SessionView>, sid: Seq<char>, now: i64) -> bool {
    exists|i: int| 0 <= i < s.len() && s[i].sid == sid && now - s[i].created_at >= SESSION_TTL_SECS
}

/// Sessions expire: a request for a session that has lived 30 minutes or
/// longer is refused with `NoSession`, whatever it carries, and the session
/// is gone afterwards, so the client must handshake again.
pub proof fn lemma_expired_session_dropped(
    s: Seq<SessionView>,
    now: i64,
    sid: Seq<char>,
    seq: u64,
    ct: Seq<u8>,
)
    requires
        unique_sids(s),
        session_expired(s, sid, now),
    ensures
        decrypt_outcome(s, now, sid, seq, ct).1 == Err::<(Seq<u8>, u64), CryptoError>(
            CryptoError::NoSession,
        ),
        forall|k: int|
            0 <= k < decrypt_outcome(s, now, sid, seq, ct).0.len() ==> (#[trigger] decrypt_outcome(
                s,
                now,
                sid,
                seq,
                ct,
            ).0[k]).sid != sid,
{
    let i = choose|i: int| 0 <= i < s.len() && s[i].sid == sid && now - s[i].created_at >= SESSION_TTL_SECS;
    let j = find_sid(s, sid)->0;
    assert(s[j].sid == sid);
    assert(j == i);
    let t = s.remove(i);
    assert forall|k: int| 0 <= k < t.len() implies (#[trigger] t[k]).sid != sid by {
        if k < i {
            assert(t[k] == s[k]);
        } else {
            assert(t[k] == s[k + 1]);
        }
    }
}

/// A refused request changes no session's state: the sessions stay as
/// they were, except that an expired session is dropped.
pub proof fn lemma_refusal_keeps_state(s: Seq<SessionView>, now: i64, sid: Seq<char>, seq: u64, ct: Seq<u8>)
    requires
        decrypt_outcome(s, now, sid, seq, ct).1 is Err,
    ensures
        ({
            let s2 = decrypt_outcome(s, now, sid, seq, ct).0;
            s2 == s || (find_sid(s, sid) matches Some(i) && s2 == s.remove(i) && now
                - s[i].created_at >= SESSION_TTL_SECS)
        }),
{
}

/// A forged request does not advance the replay window: a request with a
/// fresh sequence number that fails authentication is refused with
/// `AuthFailed` and leaves the sessions as they were, so the genuine request
/// with that number is accepted afterwards.
pub proof fn lemma_forgery_keeps_window(
    s: Seq<SessionView>,
    now: i64,
    i: int,
    seq: u64,
    bad: Seq<u8>,
    good: Seq<u8>,
    msg: Seq<u8>,
)
    requires
        unique_sids(s),
        0 <= i < s.len(),
        now - s[i].created_at < SESSION_TTL_SECS,
        s[i].requests < SESSION_MAX_REQUESTS,
        seq > s[i].last_seq,
        gcm_open_spec(s[i].c2s_key, nonce_spec(s[i].recv_prefix, seq), aad_spec(s[i].sid, 0, seq), bad)
            is None,
        gcm_open_spec(s[i].c2s_key, nonce_spec(s[i].recv_prefix, seq), aad_spec(s[i].sid, 0, seq), good)
            == Some(msg),
    ensures
        decrypt_outcome(s, now, s[i].sid, seq, bad) == (s, Err::<(Seq<u8>, u64), CryptoError>(
            CryptoError::AuthFailed,
        )),
        decrypt_outcome(decrypt_outcome(s, now, s[i].sid, seq, bad).0, now, s[i].sid, seq, good).1
            == Ok::<(Seq<u8>, u64), CryptoError>((msg, seq)),
{
    let c = choose|c: int| 0 <= c < s.len() && s[c].sid == s[i].sid;
    assert(c == i);
    lemma_sealed_request_accepted(s, now, i, seq, good, msg);
}

/// `destroy_all_except` leaves at most the kept session.
pub proof fn lemma_keep_only_one(s: Seq<SessionView>, keep: Seq<char>)
    requires
        unique_sids(s),
    ensures
        kept(s, has_sid(keep)).len() <= 1,
        forall|k: int| 0 <= k < kept(s, has_sid(keep)).len() ==> (#[trigger] kept(s, has_sid(keep))[k]).sid == keep,
    decreases s.len(),
{
    lemma_kept_all(s, has_sid(keep));
    if s.len() > 0 {
        let t = s.drop_last();
        assert(unique_sids(t));
        lemma_keep_only_one(t, keep);
        if s.last().sid == keep {
            lemma_kept_all(t, has_sid(keep));
            if kept(t, has_sid(keep)).len() == 1 {
                lemma_kept_from(t, has_sid(keep), 0);
                let m = choose|m: int| 0 <= m < t.len() && t[m] == kept(t, has_sid(keep))[0];
                assert(s[m].sid == keep);
                assert(s[s.len() - 1].sid == keep);
            }
        }
    }
}

/// Every element `kept` keeps satisfies the predicate.
pub proof fn lemma_kept_all<A>(s: Seq<A>, p: spec_fn(A) -> bool)
    ensures
        forall|k: int| 0 <= k < kept(s, p).len() ==> p(#[trigger] kept(s, p)[k]),
    decreases s.len(),
{
    if s.len() > 0 {
        let t = s.drop_last();
        lemma_kept_all(t, p);
        let kt = kept(t, p);
        if p(s.last()) {
            assert forall|k: int| 0 <= k < kept(s, p).len() implies p(#[trigger] kept(s, p)[k]) by {
                if k < kt.len() {
                    assert(kept(s, p)[k] == kt[k]);
                }
            }
        }
    }
}

/// Every element `kept` keeps comes from the sequence.
pub proof fn lemma_kept_from<A>(s: Seq<A>, p: spec_fn(A) -> bool, k: int)
    requires
        0 <= k < kept(s, p).len(),
    ensures
        exists|m: int| 0 <= m < s.len() && s[m] == kept(s, p)[k],
    decreases s.len(),
{
    let t = s.drop_last();
    if p(s.last()) && k == kept(t, p).len() {
        assert(s[s.len() - 1] == kept(s, p)[k]);
    } else {
        lemma_kept_from(t, p, k);
        let m = choose|m: int| 0 <= m < t.len() && t[m] == kept(t, p)[k];
        assert(s[m] == t[m]);
    }
}

/// Rate limiting: a peer that already made `HS_MAX_PER_WINDOW` handshakes
/// in its current window is refused.
pub proof fn lemma_rate_limit_refuses(r: Seq<RateView>, peer: Seq<char>, now: i64)
    requires
        ({
            let fresh = kept(r, rate_fresh(now));
            find_peer(fresh, peer) matches Some(i) && fresh[i].1 >= HS_MAX_PER_WINDOW && now
                - fresh[i].2 < HS_WINDOW_SECS
        }),
    ensures
        !allow_outcome(r, peer, now).1,
{
}

/// Rate limiting is per peer: a handshake check for `peer` leaves the
/// records of every other peer as they were (once stale records are dropped).
pub proof fn lemma_rate_limit_per_peer(r: Seq<RateView>, peer: Seq<char>, other: Seq<char>, now: i64)
    requires
        peer != other,
        unique_peers(kept(r, rate_fresh(now))),
    ensures
        find_peer(allow_outcome(r, peer, now).0, other) is Some <==> find_peer(kept(r, rate_fresh(now)), other) is Some,
        find_peer(kept(r, rate_fresh(now)), other) matches Some(i) ==> allow_outcome(r, peer, now).0[find_peer(allow_outcome(r, peer, now).0, other)->0] == kept(r, rate_fresh(now))[i],
{
    let fresh = kept(r, rate_fresh(now));
    let out = allow_outcome(r, peer, now).0;
    assert forall|m: int| 0 <= m < fresh.len() && fresh[m].0 == other implies out[m] == fresh[m] by {
    }
    if find_peer(fresh, other) is Some {
        let i = find_peer(fresh, other)->0;
        assert(out[i].0 == other);
        let w = choose|m: int| 0 <= m < out.len() && out[m].0 == other;
        if w != i {
            if w < fresh.len() {
                if w < i {
                    assert(fresh[w].0 != fresh[i].0);
                } else {
                    assert(fresh[i].0 != fresh[w].0);
                }
            }
        }
    } else {
        if find_peer(out, other) is Some {
            let w = choose|m: int| 0 <= m < out.len() && out[m].0 == other;
            if w < fresh.len() {
                assert(fresh[w].0 == other);
            }
        }
    }
}

} // verus!
