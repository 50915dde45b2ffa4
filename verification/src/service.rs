//! Service state kept between requests: the run log, the web login
//! tokens, the login failure counter, the web credentials and the
//! bookkeeping of accounts and check-in runs.

use vstd::prelude::*;

use crate::crypto::{
    generate_credential_key, generate_passphrase, hash_password, hash_password_v2, hash_v1_spec,
    hash_v2_spec, passphrase_alphabet, random_hex, utf8,
};
use crate::login::{gen_account_id, gen_account_name, mask_spec, maskable, masked_phone, DeviceIdentity};
use crate::models::{clone_opt, Account, Config, LogEntry};
use crate::protocol::{has_entry, ParamMap};
use crate::primitives::{b64url_encode_spec, lowercase_spec, to_lowercase};
use crate::runner::{opt_str_view, opt_view};
use crate::session::{CryptoManager, SessionView};
use crate::text::{chars_of, contains_seq, hex_of, str_eq, string_from_chars, trim, trim_chars};
use crate::time::{log_ts, log_ts_spec, valid_hhmm, valid_hhmm_spec, ShanghaiTime};

verus! {

broadcast use vstd::utf8::group_utf8_lib;

/// The run log keeps this many entries.
pub const LOG_CAPACITY: usize = 500;

/// A web login token is valid for seven days.
pub const TOKEN_TTL_SECS: i64 = 604800;

/// Consecutive failed logins of one user name that lock it.
pub const MAX_LOGIN_FAILURES: u32 = 5;

/// How long a user name stays locked.
pub const LOGIN_LOCK_SECS: i64 = 300;

/// The last `cap` elements of `s` (all of them where there are fewer).
pub open spec fn keep_last<T>(s: Seq<T>, cap: nat) -> Seq<T> {
    if s.len() > cap {
        s.subrange(s.len() - cap, s.len() as int)
    } else {
        s
    }
}

/// The run log: the newest entries, oldest first.
pub struct LogBuffer {
    entries: Vec<LogEntry>,
}

impl LogBuffer {
    /// The entries, oldest first.
    pub closed spec fn entries_view(&self) -> Seq<LogEntry> {
        self.entries@
    }

    /// An empty log.
    pub fn new() -> (b: LogBuffer)
        ensures
            b.entries_view().len() == 0,
    {
        LogBuffer { entries: Vec::new() }
    }

    /// Appends an entry, dropping the oldest ones beyond the capacity.
    pub fn push_entry(&mut self, entry: LogEntry)
        ensures
            final(self).entries_view() == keep_last(old(self).entries_view().push(entry), LOG_CAPACITY as nat),
    {
        let ghost all = self.entries_view().push(entry);
        self.entries.push(entry);
        let ghost mut dropped: int = 0;
        while self.entries.len() > LOG_CAPACITY
            invariant
                0 <= dropped <= all.len(),
                self.entries_view() == all.subrange(dropped, all.len() as int),
                dropped > 0 ==> self.entries_view().len() >= LOG_CAPACITY,
            decreases self.entries_view().len(),
        {
            self.entries.remove(0);
            proof {
                assert(self.entries_view() =~= all.subrange(dropped + 1, all.len() as int));
                dropped = dropped + 1;
            }
        }
        proof {
            if all.len() <= LOG_CAPACITY {
                assert(dropped == 0);
                assert(self.entries_view() =~= all);
            } else {
                assert(dropped == all.len() - LOG_CAPACITY);
            }
        }
    }

    /// Logs `message` at `level` with the current Shanghai time.
    pub fn push_log(&mut self, level: &str, message: String)
        ensures
            ({
                let s = old(self).entries_view();
                let n = final(self).entries_view();
                &&& n.len() == keep_last(s.push(n.last()), LOG_CAPACITY as nat).len()
                &&& n == keep_last(s.push(n.last()), LOG_CAPACITY as nat)
                &&& n.last().level@ == level@
                &&& n.last().message@ == message@
                &&& exists|t: ShanghaiTime| t.wf() && n.last().ts@ == log_ts_spec(t)
            }),
    {
        let e = LogEntry { ts: log_ts(), level: level.to_owned(), message };
        self.push_entry(e);
    }

    /// The newest `limit` entries (all where there are fewer), oldest first.
    pub fn recent_logs(&self, limit: usize) -> (r: Vec<LogEntry>)
        ensures
            r@ == keep_last(self.entries_view(), limit as nat),
    {
        let n = self.entries.len();
        let start = if n > limit {
            n - limit
        } else {
            0
        };
        let mut out: Vec<LogEntry> = Vec::new();
        let mut i: usize = start;
        while i < n
            invariant
                start <= i <= n,
                n == self.entries_view().len(),
                out@ == self.entries_view().subrange(start as int, i as int),
            decreases n - i,
        {
            out.push(self.entries[i].duplicate());
            proof {
                assert(self.entries_view().subrange(start as int, i + 1) =~= self.entries_view().subrange(
                    start as int,
                    i as int,
                ).push(self.entries_view()[i as int]));
            }
            i = i + 1;
        }
        proof {
            assert(out@ =~= keep_last(self.entries_view(), limit as nat));
        }
        out
    }
}

/// A web login token, the user it was issued to and when it expires
/// (unix seconds).
pub struct TokenEntry {
    pub token: String,
    pub username: String,
    pub expires_at: i64,
}

/// The web login tokens.
pub struct TokenStore {
    entries: Vec<TokenEntry>,
}

/// No token occurs twice.
pub open spec fn tokens_unique(s: Seq<TokenEntry>) -> bool {
    forall|i: int, j: int| 0 <= i < j < s.len() ==> s[i].token@ != s[j].token@
}

/// The entries still valid at `now`.
pub open spec fn live_tokens(s: Seq<TokenEntry>, now: i64) -> Seq<TokenEntry>
    decreases s.len(),
{
    if s.len() == 0 {
        Seq::empty()
    } else {
        let p = live_tokens(s.drop_last(), now);
        if s.last().expires_at > now {
            p.push(s.last())
        } else {
            p
        }
    }
}

/// The entries whose token differs from `token`.
pub open spec fn without_token(s: Seq<TokenEntry>, token: Seq<char>) -> Seq<TokenEntry>
    decreases s.len(),
{
    if s.len() == 0 {
        Seq::empty()
    } else {
        let p = without_token(s.drop_last(), token);
        if s.last().token@ != token {
            p.push(s.last())
        } else {
            p
        }
    }
}

/// The user a token belongs to at `now`: the entry with that token, where
/// it has not expired. An empty token belongs to nobody.
pub open spec fn token_user(s: Seq<TokenEntry>, token: Seq<char>, now: i64) -> Option<Seq<char>> {
    if token.len() > 0 && exists|i: int|
        0 <= i < s.len() && s[i].token@ == token && s[i].expires_at > now {
        let i = choose|i: int| 0 <= i < s.len() && s[i].token@ == token && s[i].expires_at > now;
        Some(s[i].username@)
    } else {
        None
    }
}

proof fn lemma_live_members(s: Seq<TokenEntry>, now: i64)
    ensures
        forall|k: int|
            0 <= k < live_tokens(s, now).len() ==> live_tokens(s, now)[k].expires_at > now
                && s.contains(#[trigger] live_tokens(s, now)[k]),
        forall|i: int| 0 <= i < s.len() && s[i].expires_at > now ==> live_tokens(s, now).contains(s[i]),
        live_tokens(s, now).len() <= s.len(),
    decreases s.len(),
{
    if s.len() > 0 {
        lemma_live_members(s.drop_last(), now);
        let p = live_tokens(s.drop_last(), now);
        assert forall|k: int|
            0 <= k < live_tokens(s, now).len() implies live_tokens(s, now)[k].expires_at > now
            && s.contains(#[trigger] live_tokens(s, now)[k]) by {
            if k < p.len() {
                let w = choose|w: int| 0 <= w < s.drop_last().len() && s.drop_last()[w] == p[k];
                assert(s[w] == p[k]);
            } else {
                assert(s[s.len() - 1] == s.last());
            }
        }
        assert forall|i: int| 0 <= i < s.len() && s[i].expires_at > now implies live_tokens(
            s,
            now,
        ).contains(s[i]) by {
            if i < s.len() - 1 {
                assert(s.drop_last()[i] == s[i]);
                let w = choose|w: int| 0 <= w < p.len() && p[w] == s[i];
                assert(live_tokens(s, now)[w] == s[i]);
            } else {
                assert(live_tokens(s, now)[p.len() as int] == s[i]);
            }
        }
    }
}

proof fn lemma_without_members(s: Seq<TokenEntry>, token: Seq<char>)
    ensures
        forall|k: int|
            0 <= k < without_token(s, token).len() ==> without_token(s, token)[k].token@ != token
                && s.contains(#[trigger] without_token(s, token)[k]),
        forall|i: int| 0 <= i < s.len() && s[i].token@ != token ==> without_token(s, token).contains(s[i]),
        without_token(s, token).len() <= s.len(),
    decreases s.len(),
{
    if s.len() > 0 {
        lemma_without_members(s.drop_last(), token);
        let p = without_token(s.drop_last(), token);
        assert forall|k: int|
            0 <= k < without_token(s, token).len() implies without_token(s, token)[k].token@
            != token && s.contains(#[trigger] without_token(s, token)[k]) by {
            if k < p.len() {
                let w = choose|w: int| 0 <= w < s.drop_last().len() && s.drop_last()[w] == p[k];
                assert(s[w] == p[k]);
            } else {
                assert(s[s.len() - 1] == s.last());
            }
        }
        assert forall|i: int| 0 <= i < s.len() && s[i].token@ != token implies without_token(
            s,
            token,
        ).contains(s[i]) by {
            if i < s.len() - 1 {
                assert(s.drop_last()[i] == s[i]);
                let w = choose|w: int| 0 <= w < p.len() && p[w] == s[i];
                assert(without_token(s, token)[w] == s[i]);
            } else {
                assert(without_token(s, token)[p.len() as int] == s[i]);
            }
        }
    }
}

impl TokenStore {
    /// The entries, oldest first.
    pub closed spec fn entries_view(&self) -> Seq<TokenEntry> {
        self.entries@
    }

    /// No token occurs twice.
    pub open spec fn wf(&self) -> bool {
        tokens_unique(self.entries_view())
    }

    /// No tokens.
    pub fn new() -> (t: TokenStore)
        ensures
            t.wf(),
            t.entries_view().len() == 0,
    {
        TokenStore { entries: Vec::new() }
    }

    fn remove_token(&mut self, token: &str) -> (removed: bool)
        ensures
            final(self).entries_view() == without_token(old(self).entries_view(), token@),
            removed == exists|i: int|
                0 <= i < old(self).entries_view().len() && old(self).entries_view()[i].token@ == token@,
    {
        let mut kept: Vec<TokenEntry> = Vec::new();
        let mut removed = false;
        let mut i: usize = 0;
        while i < self.entries.len()
            invariant
                i <= self.entries_view().len(),
                kept@ == without_token(self.entries_view().take(i as int), token@),
                removed == exists|k: int| 0 <= k < i && self.entries_view()[k].token@ == token@,
            decreases self.entries_view().len() - i,
        {
            proof {
                assert(self.entries_view().take(i + 1).drop_last() =~= self.entries_view().take(i as int));
            }
            if str_eq(self.entries[i].token.as_str(), token) {
                removed = true;
            } else {
                kept.push(self.entries[i].duplicate());
            }
            i = i + 1;
        }
        proof {
            assert(self.entries_view().take(self.entries_view().len() as int) =~= self.entries_view());
        }
        self.entries = kept;
        removed
    }

    /// Stores a new token for `username`, valid until `now` plus seven days.
    pub fn issue_at(&mut self, username: &str, now: i64) -> (token: String)
        requires
            old(self).wf(),
            now <= i64::MAX - TOKEN_TTL_SECS,
        ensures
            final(self).wf(),
            exists|b: Seq<u8>| b.len() == 32 && token@ == hex_of(b),
            final(self).entries_view() == without_token(old(self).entries_view(), token@).push(
                final(self).entries_view().last(),
            ),
            final(self).entries_view().last().token@ == token@,
            final(self).entries_view().last().username@ == username@,
            final(self).entries_view().last().expires_at == now + TOKEN_TTL_SECS,
    {
        let token = crate::crypto::random_hex(32);
        let ghost s = self.entries_view();
        self.remove_token(token.as_str());
        proof {
            lemma_without_members(s, token@);
            lemma_without_unique(s, token@);
        }
        let e = TokenEntry {
            token: token.clone(),
            username: username.to_owned(),
            expires_at: now + TOKEN_TTL_SECS,
        };
        self.entries.push(e);
        token
    }

    /// The user of `token` at `now`; expired tokens are dropped first. An
    /// empty token is refused without touching the store.
    pub fn validate_at(&mut self, token: &str, now: i64) -> (user: Option<String>)
        requires
            old(self).wf(),
        ensures
            final(self).wf(),
            match user {
                Some(u) => token_user(old(self).entries_view(), token@, now) == Some(u@),
                None => token_user(old(self).entries_view(), token@, now) is None,
            },
            token@.len() > 0 ==> final(self).entries_view() == live_tokens(old(self).entries_view(), now),
            token@.len() == 0 ==> final(self).entries_view() == old(self).entries_view(),
    {
        if crate::text::chars_of(token).len() == 0 {
            return None;
        }
        let ghost s = self.entries_view();
        self.purge(now);
        proof {
            lemma_live_members(s, now);
        }
        let mut i: usize = 0;
        while i < self.entries.len()
            invariant
                i <= self.entries_view().len(),
                self.entries_view() == live_tokens(s, now),
                forall|k: int| 0 <= k < i ==> self.entries_view()[k].token@ != token@,
                s == old(self).entries_view(),
                tokens_unique(s),
                tokens_unique(self.entries_view()),
                token@.len() > 0,
                forall|k: int|
                    0 <= k < live_tokens(s, now).len() ==> live_tokens(s, now)[k].expires_at > now
                        && s.contains(#[trigger] live_tokens(s, now)[k]),
            decreases self.entries_view().len() - i,
        {
            if str_eq(self.entries[i].token.as_str(), token) {
                let u = self.entries[i].username.clone();
                proof {
                    let e = self.entries_view()[i as int];
                    assert(s.contains(e));
                    let w = choose|w: int| 0 <= w < s.len() && s[w] == e;
                    assert(s[w].token@ == token@ && s[w].expires_at > now);
                    let c = choose|c: int|
                        0 <= c < s.len() && s[c].token@ == token@ && s[c].expires_at > now;
                    assert(c == w);
                    assert(token_user(s, token@, now) == Some(u@));
                }
                return Some(u);
            }
            i = i + 1;
        }
        proof {
            if exists|c: int| 0 <= c < s.len() && s[c].token@ == token@ && s[c].expires_at > now {
                let c = choose|c: int|
                    0 <= c < s.len() && s[c].token@ == token@ && s[c].expires_at > now;
                assert(live_tokens(s, now).contains(s[c]));
            }
        }
        None
    }

    fn purge(&mut self, now: i64)
        requires
            old(self).wf(),
        ensures
            final(self).entries_view() == live_tokens(old(self).entries_view(), now),
            final(self).wf(),
    {
        let mut kept: Vec<TokenEntry> = Vec::new();
        let mut i: usize = 0;
        while i < self.entries.len()
            invariant
                i <= self.entries_view().len(),
                kept@ == live_tokens(self.entries_view().take(i as int), now),
            decreases self.entries_view().len() - i,
        {
            proof {
                assert(self.entries_view().take(i + 1).drop_last() =~= self.entries_view().take(i as int));
            }
            if self.entries[i].expires_at > now {
                kept.push(self.entries[i].duplicate());
            }
            i = i + 1;
        }
        proof {
            assert(self.entries_view().take(self.entries_view().len() as int) =~= self.entries_view());
            lemma_live_unique(self.entries_view(), now);
        }
        self.entries = kept;
    }

    /// Revokes one token.
    pub fn revoke(&mut self, token: &str) -> (removed: bool)
        requires
            old(self).wf(),
        ensures
            final(self).wf(),
            final(self).entries_view() == without_token(old(self).entries_view(), token@),
            removed == exists|i: int|
                0 <= i < old(self).entries_view().len() && old(self).entries_view()[i].token@ == token@,
    {
        let ghost s = self.entries_view();
        let r = self.remove_token(token);
        proof {
            lemma_without_unique(s, token@);
        }
        r
    }

    /// Revokes every token; returns how many there were.
    pub fn revoke_all(&mut self) -> (n: usize)
        ensures
            final(self).wf(),
            final(self).entries_view().len() == 0,
            n == old(self).entries_view().len(),
    {
        let n = self.entries.len();
        self.entries = Vec::new();
        n
    }
}

impl TokenEntry {
    /// A field-for-field copy.
    pub fn duplicate(&self) -> (r: TokenEntry)
        ensures
            r == *self,
    {
        TokenEntry { token: self.token.clone(), username: self.username.clone(), expires_at: self.expires_at }
    }
}

proof fn lemma_live_unique(s: Seq<TokenEntry>, now: i64)
    requires
        tokens_unique(s),
    ensures
        tokens_unique(live_tokens(s, now)),
    decreases s.len(),
{
    if s.len() > 0 {
        lemma_live_unique(s.drop_last(), now);
        lemma_live_members(s.drop_last(), now);
        let p = live_tokens(s.drop_last(), now);
        if s.last().expires_at > now {
            assert forall|i: int, j: int|
                0 <= i < j < p.len() + 1 implies #[trigger] p.push(s.last())[i].token@ != #[trigger] p.push(
                s.last(),
            )[j].token@ by {
                if j == p.len() {
                    assert(s.drop_last().contains(p[i]));
                    let w = choose|w: int| 0 <= w < s.drop_last().len() && s.drop_last()[w] == p[i];
                    assert(s[w] == p[i]);
                    assert(s[s.len() - 1] == s.last());
                }
            }
        }
    }
}

proof fn lemma_without_unique(s: Seq<TokenEntry>, token: Seq<char>)
    requires
        tokens_unique(s),
    ensures
        tokens_unique(without_token(s, token)),
    decreases s.len(),
{
    if s.len() > 0 {
        lemma_without_unique(s.drop_last(), token);
        lemma_without_members(s.drop_last(), token);
        let p = without_token(s.drop_last(), token);
        if s.last().token@ != token {
            assert forall|i: int, j: int|
                0 <= i < j < p.len() + 1 implies #[trigger] p.push(s.last())[i].token@ != #[trigger] p.push(
                s.last(),
            )[j].token@ by {
                if j == p.len() {
                    assert(s.drop_last().contains(p[i]));
                    let w = choose|w: int| 0 <= w < s.drop_last().len() && s.drop_last()[w] == p[i];
                    assert(s[w] == p[i]);
                    assert(s[s.len() - 1] == s.last());
                }
            }
        }
    }
}

/// A token issued at `issued_at` is accepted, for the user it was issued
/// to, at every time before `issued_at` plus seven days and refused from
/// then on, as long as it stays in the store.
pub proof fn lemma_token_lifetime(
    s: Seq<TokenEntry>,
    token: Seq<char>,
    user: Seq<char>,
    issued_at: i64,
    now: i64,
)
    requires
        tokens_unique(s),
        s.len() > 0,
        token.len() > 0,
        s.last().token@ == token,
        s.last().username@ == user,
        s.last().expires_at == issued_at + TOKEN_TTL_SECS,
    ensures
        token_user(s, token, now) == (if now < issued_at + TOKEN_TTL_SECS {
            Some(user)
        } else {
            None::<Seq<char>>
        }),
{
    let last = s.len() - 1;
    assert(s[last] == s.last());
    if now < issued_at + TOKEN_TTL_SECS {
        assert(s[last].token@ == token && s[last].expires_at > now);
        let c = choose|c: int| 0 <= c < s.len() && s[c].token@ == token && s[c].expires_at > now;
        assert(c == last);
    } else {
        assert forall|c: int| 0 <= c < s.len() && s[c].token@ == token implies !(s[c].expires_at
            > now) by {
            assert(c == last);
        }
    }
}

/// A revoked token is refused at any time.
pub proof fn lemma_revoked_token_refused(s: Seq<TokenEntry>, token: Seq<char>, now: i64)
    ensures
        token_user(without_token(s, token), token, now) is None,
{
    lemma_without_members(s, token);
}

/// The login failures of a user name: the count since the last lock and
/// the time the lock ends.
pub struct LoginFailures {
    pub username: String,
    pub count: u32,
    pub locked_until: i64,
}

/// Failed logins per user name.
pub struct LoginLimiter {
    entries: Vec<LoginFailures>,
}

/// The failure count and lock end of `user`; `(0, i64::MIN)` for a user
/// without failures.
pub open spec fn failures_of(s: Seq<LoginFailures>, user: Seq<char>) -> (u32, i64) {
    if exists|i: int| 0 <= i < s.len() && s[i].username@ == user {
        let i = choose|i: int| 0 <= i < s.len() && s[i].username@ == user;
        (s[i].count, s[i].locked_until)
    } else {
        (0, i64::MIN)
    }
}

/// A user name occurs at most once and no count reaches the limit.
pub open spec fn limiter_wf(s: Seq<LoginFailures>) -> bool {
    &&& forall|i: int, j: int| 0 <= i < j < s.len() ==> s[i].username@ != s[j].username@
    &&& forall|i: int| 0 <= i < s.len() ==> s[i].count < MAX_LOGIN_FAILURES
}

/// One more failure at `now`: the count goes up, and at the limit the
/// user is locked until `now` plus the lock time and the count restarts.
pub open spec fn failure_step(state: (u32, i64), now: i64) -> (u32, i64) {
    if state.0 + 1 >= MAX_LOGIN_FAILURES {
        (0, (now + LOGIN_LOCK_SECS) as i64)
    } else {
        ((state.0 + 1) as u32, state.1)
    }
}

/// The seconds a user stays locked at `now`, where it is locked.
pub open spec fn lock_remaining_spec(state: (u32, i64), now: i64) -> Option<int> {
    if state.1 > now {
        Some(state.1 - now)
    } else {
        None
    }
}

impl LoginLimiter {
    /// The entries, oldest first.
    pub closed spec fn entries_view(&self) -> Seq<LoginFailures> {
        self.entries@
    }

    /// User names are unique and counts below the limit.
    pub open spec fn wf(&self) -> bool {
        limiter_wf(self.entries_view())
    }

    /// No failures recorded.
    pub fn new() -> (l: LoginLimiter)
        ensures
            l.wf(),
            l.entries_view().len() == 0,
    {
        LoginLimiter { entries: Vec::new() }
    }

    fn find(&self, username: &str) -> (r: Option<usize>)
        ensures
            match r {
                Some(i) => i < self.entries_view().len() && self.entries_view()[i as int].username@ == username@,
                None => forall|i: int|
                    0 <= i < self.entries_view().len() ==> self.entries_view()[i].username@ != username@,
            },
    {
        let mut i: usize = 0;
        while i < self.entries.len()
            invariant
                i <= self.entries_view().len(),
                forall|k: int| 0 <= k < i ==> self.entries_view()[k].username@ != username@,
            decreases self.entries_view().len() - i,
        {
            if str_eq(self.entries[i].username.as_str(), username) {
                return Some(i);
            }
            i = i + 1;
        }
        None
    }

    /// The seconds `username` stays locked at `now`, where it is locked.
    pub fn login_lock_remaining(&self, username: &str, now: i64) -> (r: Option<i64>)
        requires
            self.wf(),
            now >= 0,
        ensures
            match r {
                Some(x) => lock_remaining_spec(failures_of(self.entries_view(), username@), now) == Some(
                    x as int,
                ),
                None => lock_remaining_spec(failures_of(self.entries_view(), username@), now) is None,
            },
    {
        match self.find(username) {
            Some(i) => {
                proof {
                    let c = choose|c: int|
                        0 <= c < self.entries_view().len() && self.entries_view()[c].username@ == username@;
                    assert(c == i);
                }
                let until = self.entries[i].locked_until;
                if until > now {
                    Some(until - now)
                } else {
                    None
                }
            },
            None => None,
        }
    }

    /// Records a failed login of `username` at `now`.
    pub fn record_login_fail(&mut self, username: &str, now: i64)
        requires
            old(self).wf(),
            now <= i64::MAX - LOGIN_LOCK_SECS,
        ensures
            final(self).wf(),
            failures_of(final(self).entries_view(), username@) == failure_step(
                failures_of(old(self).entries_view(), username@),
                now,
            ),
            forall|u: Seq<char>|
                u != username@ ==> failures_of(final(self).entries_view(), u) == failures_of(
                    old(self).entries_view(),
                    u,
                ),
    {
        let ghost s = self.entries_view();
        match self.find(username) {
            Some(i) => {
                proof {
                    let c = choose|c: int| 0 <= c < s.len() && s[c].username@ == username@;
                    assert(c == i);
                }
                let count = self.entries[i].count;
                let until = self.entries[i].locked_until;
                let e = if count + 1 >= MAX_LOGIN_FAILURES {
                    LoginFailures {
                        username: self.entries[i].username.clone(),
                        count: 0,
                        locked_until: now + LOGIN_LOCK_SECS,
                    }
                } else {
                    LoginFailures {
                        username: self.entries[i].username.clone(),
                        count: count + 1,
                        locked_until: until,
                    }
                };
                self.entries.set(i, e);
                proof {
                    let n = self.entries_view();
                    assert(n[i as int].username@ == username@);
                    let c2 = choose|c: int| 0 <= c < n.len() && n[c].username@ == username@;
                    assert(c2 == i);
                    assert forall|u: Seq<char>| u != username@ implies failures_of(n, u)
                        == failures_of(s, u) by {
                        if exists|k: int| 0 <= k < s.len() && s[k].username@ == u {
                            let k = choose|k: int| 0 <= k < s.len() && s[k].username@ == u;
                            assert(n[k].username@ == u);
                            let k2 = choose|k2: int| 0 <= k2 < n.len() && n[k2].username@ == u;
                            assert(k2 == k);
                        } else {
                            assert forall|k: int| 0 <= k < n.len() implies n[k].username@ != u by {
                                if k != i {
                                    assert(n[k] == s[k]);
                                }
                            }
                        }
                    }
                }
            },
            None => {
                self.entries.push(
                    LoginFailures { username: username.to_owned(), count: 1, locked_until: i64::MIN },
                );
                proof {
                    let n = self.entries_view();
                    let last = n.len() - 1;
                    assert(n[last].username@ == username@);
                    let c2 = choose|c: int| 0 <= c < n.len() && n[c].username@ == username@;
                    assert(c2 == last);
                    assert forall|u: Seq<char>| u != username@ implies failures_of(n, u)
                        == failures_of(s, u) by {
                        if exists|k: int| 0 <= k < s.len() && s[k].username@ == u {
                            let k = choose|k: int| 0 <= k < s.len() && s[k].username@ == u;
                            assert(n[k].username@ == u);
                            let k2 = choose|k2: int| 0 <= k2 < n.len() && n[k2].username@ == u;
                            assert(k2 == k);
                        } else {
                            assert forall|k: int| 0 <= k < n.len() implies n[k].username@ != u by {
                                if k != last {
                                    assert(n[k] == s[k]);
                                }
                            }
                        }
                    }
                }
            },
        }
    }

    /// Forgets the failures of `username` (after a successful login).
    pub fn reset_login_fails(&mut self, username: &str)
        requires
            old(self).wf(),
        ensures
            final(self).wf(),
            failures_of(final(self).entries_view(), username@) == (0u32, i64::MIN),
            forall|u: Seq<char>|
                u != username@ ==> failures_of(final(self).entries_view(), u) == failures_of(
                    old(self).entries_view(),
                    u,
                ),
    {
        let ghost s = self.entries_view();
        match self.find(username) {
            Some(i) => {
                self.entries.remove(i);
                proof {
                    let n = self.entries_view();
                    assert forall|k: int| 0 <= k < n.len() implies n[k] == (if k < i {
                        s[k]
                    } else {
                        s[k + 1]
                    }) by {}
                    assert forall|k: int| 0 <= k < n.len() implies n[k].username@ != username@ by {
                        if k >= i {
                            assert(n[k] == s[k + 1]);
                        }
                    }
                    assert forall|u: Seq<char>| u != username@ implies failures_of(n, u)
                        == failures_of(s, u) by {
                        if exists|k: int| 0 <= k < s.len() && s[k].username@ == u {
                            let k = choose|k: int| 0 <= k < s.len() && s[k].username@ == u;
                            assert(k != i);
                            let kn = if k < i {
                                k
                            } else {
                                k - 1
                            };
                            assert(n[kn].username@ == u);
                            let k2 = choose|k2: int| 0 <= k2 < n.len() && n[k2].username@ == u;
                            assert(k2 == kn);
                        } else {
                            assert forall|k: int| 0 <= k < n.len() implies n[k].username@ != u by {
                                if k >= i {
                                    assert(n[k] == s[k + 1]);
                                }
                            }
                        }
                    }
                }
            },
            None => {},
        }
    }
}

/// The limit-th consecutive failure locks the user for the lock time.
pub proof fn lemma_limit_failures_lock(now: i64)
    requires
        now <= i64::MAX - LOGIN_LOCK_SECS,
    ensures
        ({
            let mut_state = failure_step(
                failure_step(
                    failure_step(failure_step(failure_step((0u32, i64::MIN), now), now), now),
                    now,
                ),
                now,
            );
            lock_remaining_spec(mut_state, now) == Some(LOGIN_LOCK_SECS as int)
        }),
        lock_remaining_spec(
            failure_step(failure_step(failure_step(failure_step((0u32, i64::MIN), now), now), now), now),
            now,
        ) is None,
{
}

/// The web login user name: the configured one, `admin` where unset.
pub open spec fn expected_user(c: Config) -> Seq<char> {
    match c.web_username {
        Some(u) => u@,
        None => "admin"@,
    }
}

/// `password` hashes, with the stored salt and the stored hash version
/// (version 2 is scrypt; anything else is the SHA-256 version 1), to the
/// stored hash.
pub open spec fn password_matches(c: Config, password: Seq<char>) -> bool {
    match (c.web_password_hash, c.web_password_salt) {
        (Some(h), Some(salt)) => if c.web_password_version == Some(2u8) {
            hash_v2_spec(password, salt@) == h@
        } else {
            hash_v1_spec(password, salt@) == h@
        },
        _ => false,
    }
}

/// The settings other than the web credentials are equal.
pub open spec fn same_settings(a: Config, b: Config) -> bool {
    &&& a.credential_key == b.credential_key
    &&& a.default_schedule == b.default_schedule
    &&& a.schedules == b.schedules
    &&& a.coin_tasks == b.coin_tasks
    &&& a.cloud_duration == b.cloud_duration
    &&& a.share_platform == b.share_platform
    &&& a.max_retries == b.max_retries
    &&& a.crypto_policy == b.crypto_policy
    &&& a.lan_no_auth == b.lan_no_auth
    &&& a.lan_cidrs == b.lan_cidrs
    &&& a.initial_password_announced == b.initial_password_announced
}

fn strings_equal_ct(a: &str, b: &str) -> (r: bool)
    ensures
        r == (a@ == b@),
{
    let r = crate::crypto::constant_time_eq(a.as_bytes(), b.as_bytes());
    proof {
        if utf8(a@) == utf8(b@) {
            vstd::utf8::encode_utf8_decode_utf8(a@);
            vstd::utf8::encode_utf8_decode_utf8(b@);
        }
    }
    r
}

/// Checks a web login; the hashes are compared in constant time.
pub fn verify_login(config: &Config, username: &str, password: &str) -> (ok: bool)
    ensures
        ok == (username@ == expected_user(*config) && password_matches(*config, password@)),
{
    let expected: &str = match &config.web_username {
        Some(u) => u.as_str(),
        None => "admin",
    };
    if !str_eq(username, expected) {
        return false;
    }
    match (&config.web_password_hash, &config.web_password_salt) {
        (Some(h), Some(salt)) => {
            let computed = if config.web_password_version == Some(2u8) {
                hash_password_v2(password, salt.as_str())
            } else {
                hash_password(password, salt.as_str())
            };
            strings_equal_ct(computed.as_str(), h.as_str())
        },
        _ => false,
    }
}

/// A fresh version 2 hash of `password`: a random 16-byte hex salt and the
/// scrypt hash under it.
fn fresh_v2_hash(password: &str) -> (r: (String, String))
    ensures
        exists|b: Seq<u8>| b.len() == 16 && r.0@ == hex_of(b),
        r.1@ == hash_v2_spec(password@, r.0@),
{
    let salt = random_hex(16);
    let hash = hash_password_v2(password, salt.as_str());
    (salt, hash)
}

/// Sets the web credentials: the trimmed user name where it is not empty
/// (the old one stays otherwise), and a version 2 hash of the new password
/// under a fresh salt; the must-change flag is cleared.
pub fn set_credentials(config: &mut Config, username: &str, new_password: &str)
    ensures
        same_settings(*final(config), *old(config)),
        opt_view(final(config).web_username) == (if trim(username@).len() > 0 {
            Some(trim(username@))
        } else {
            opt_view(old(config).web_username)
        }),
        final(config).web_password_version == Some(2u8),
        !final(config).web_password_must_change,
        final(config).web_password_salt matches Some(salt) && exists|b: Seq<u8>|
            b.len() == 16 && salt@ == hex_of(b),
        password_matches(*final(config), new_password@),
{
    let t = trim_chars(&chars_of(username));
    if t.len() > 0 {
        config.web_username = Some(string_from_chars(&t));
    }
    let (salt, hash) = fresh_v2_hash(new_password);
    config.web_password_hash = Some(hash);
    config.web_password_salt = Some(salt);
    config.web_password_version = Some(2u8);
    config.web_password_must_change = false;
}

/// Sets the web credentials and revokes every web login token and every
/// encrypted session; returns how many tokens and sessions were revoked.
pub fn change_credentials(
    config: &mut Config,
    tokens: &mut TokenStore,
    crypto: &mut CryptoManager,
    username: &str,
    new_password: &str,
) -> (revoked: (usize, usize))
    requires
        old(crypto).wf(),
    ensures
        same_settings(*final(config), *old(config)),
        opt_view(final(config).web_username) == (if trim(username@).len() > 0 {
            Some(trim(username@))
        } else {
            opt_view(old(config).web_username)
        }),
        final(config).web_password_version == Some(2u8),
        !final(config).web_password_must_change,
        password_matches(*final(config), new_password@),
        final(tokens).entries_view().len() == 0,
        final(tokens).wf(),
        forall|t: Seq<char>, now: i64| token_user(final(tokens).entries_view(), t, now) is None,
        final(crypto).wf(),
        final(crypto).sessions_view() == Seq::<SessionView>::empty(),
        final(crypto).rate_view() == old(crypto).rate_view(),
        final(crypto).identity_secret() == old(crypto).identity_secret(),
        revoked.0 == old(tokens).entries_view().len(),
        revoked.1 == old(crypto).sessions_view().len(),
{
    set_credentials(config, username, new_password);
    let a = tokens.revoke_all();
    let b = crypto.destroy_all();
    (a, b)
}

/// After a successful login with a version 1 hash, the hash is replaced by
/// a version 2 hash of the same password; returns whether it was.
pub fn upgrade_password_hash_if_legacy(config: &mut Config, password: &str) -> (upgraded: bool)
    ensures
        upgraded == (old(config).web_password_version != Some(2u8)
            && old(config).web_password_hash is Some),
        upgraded ==> {
            &&& final(config).web_password_version == Some(2u8)
            &&& password_matches(*final(config), password@)
            &&& final(config).web_username == old(config).web_username
            &&& final(config).web_password_must_change == old(config).web_password_must_change
            &&& same_settings(*final(config), *old(config))
        },
        !upgraded ==> *final(config) == *old(config),
{
    if config.web_password_version != Some(2u8) && config.web_password_hash.is_some() {
        let (salt, hash) = fresh_v2_hash(password);
        config.web_password_hash = Some(hash);
        config.web_password_salt = Some(salt);
        config.web_password_version = Some(2u8);
        true
    } else {
        false
    }
}

/// Whether the user must change the password at the next login.
pub fn must_change_password(config: &Config) -> (b: bool)
    ensures
        b == config.web_password_must_change,
{
    config.web_password_must_change
}

/// A generated passphrase: sixteen characters of the passphrase alphabet.
pub open spec fn generated_passphrase(p: Seq<char>) -> bool {
    p.len() == 16 && forall|i: int| 0 <= i < 16 ==> passphrase_alphabet().contains(#[trigger] p[i])
}

/// `after` holds the initial password `p` set on `before`: the given
/// password where it is not blank, else a generated passphrase that must be
/// changed.
pub open spec fn initialized(before: Config, after: Config, given: Option<Seq<char>>, p: Seq<char>) -> bool {
    &&& password_matches(after, p)
    &&& after.web_password_version == Some(2u8)
    &&& after.web_username == before.web_username
    &&& same_settings(after, before)
    &&& match given {
        Some(g) => if trim(g).len() > 0 {
            p == g && after.web_password_must_change == before.web_password_must_change
        } else {
            generated_passphrase(p) && after.web_password_must_change
        },
        None => generated_passphrase(p) && after.web_password_must_change,
    }
}

/// Sets the initial web password where none is stored: the given one
/// where it is not blank, else a random 16-character passphrase that must
/// be changed at the first login. Returns the password to announce once.
pub fn init_credentials(config: &mut Config, given_password: Option<&str>) -> (initial: Option<String>)
    ensures
        old(config).web_password_hash is Some ==> initial is None && *final(config) == *old(config),
        old(config).web_password_hash is None ==> (initial matches Some(p) && initialized(
            *old(config),
            *final(config),
            opt_str_view(given_password),
            p@,
        )),
{
    if config.web_password_hash.is_some() {
        return None;
    }
    let given: Option<String> = match given_password {
        Some(g) => if trim_chars(&chars_of(g)).len() > 0 {
            Some(g.to_owned())
        } else {
            None
        },
        None => None,
    };
    let (password, generated) = match given {
        Some(g) => (g, false),
        None => (generate_passphrase(16), true),
    };
    let (salt, hash) = fresh_v2_hash(password.as_str());
    config.web_password_hash = Some(hash);
    config.web_password_salt = Some(salt);
    config.web_password_version = Some(2u8);
    if generated {
        config.web_password_must_change = true;
    }
    Some(password)
}

/// Fills in what a stored configuration may lack: a credential key where it
/// is empty and the user name `admin` where it is unset or blank.
pub fn ensure_defaults(config: &mut Config)
    ensures
        old(config).credential_key@.len() > 0 ==> final(config).credential_key == old(
            config,
        ).credential_key,
        old(config).credential_key@.len() == 0 ==> exists|b: Seq<u8>|
            b.len() == 32 && final(config).credential_key@ == b64url_encode_spec(b),
        opt_view(final(config).web_username) == (match old(config).web_username {
            Some(u) => if trim(u@).len() > 0 {
                Some(u@)
            } else {
                Some("admin"@)
            },
            None => Some("admin"@),
        }),
        final(config).web_password_hash == old(config).web_password_hash,
        final(config).web_password_salt == old(config).web_password_salt,
        final(config).web_password_version == old(config).web_password_version,
        final(config).web_password_must_change == old(config).web_password_must_change,
        final(config).default_schedule == old(config).default_schedule,
        final(config).schedules == old(config).schedules,
        final(config).coin_tasks == old(config).coin_tasks,
        final(config).cloud_duration == old(config).cloud_duration,
        final(config).share_platform == old(config).share_platform,
        final(config).max_retries == old(config).max_retries,
        final(config).crypto_policy == old(config).crypto_policy,
        final(config).lan_no_auth == old(config).lan_no_auth,
        final(config).lan_cidrs == old(config).lan_cidrs,
        final(config).initial_password_announced == old(config).initial_password_announced,
{
    if chars_of(config.credential_key.as_str()).len() == 0 {
        config.credential_key = generate_credential_key();
    }
    let blank = match &config.web_username {
        Some(u) => trim_chars(&chars_of(u.as_str())).len() == 0,
        None => true,
    };
    if blank {
        config.web_username = Some("admin".to_owned());
    }
}

/// A truthy environment value: `1`, `true`, `yes` or `on`, trimmed, in any
/// case.
pub open spec fn bool_env_spec(v: Seq<char>) -> bool {
    let l = lowercase_spec(trim(v));
    l == "1"@ || l == "true"@ || l == "yes"@ || l == "on"@
}

/// Reads a boolean environment value.
pub fn parse_bool_env(v: &str) -> (b: bool)
    ensures
        b == bool_env_spec(v@),
{
    let t = string_from_chars(&trim_chars(&chars_of(v)));
    let l = to_lowercase(t.as_str());
    let s = l.as_str();
    str_eq(s, "1") || str_eq(s, "true") || str_eq(s, "yes") || str_eq(s, "on")
}

/// Applies the environment overrides: a non-blank default schedule and
/// share platform (trimmed), and the two task switches where set.
pub fn apply_env_overrides(
    config: &mut Config,
    default_schedule: Option<&str>,
    coin_tasks: Option<&str>,
    cloud_duration: Option<&str>,
    share_platform: Option<&str>,
)
    ensures
        final(config).default_schedule@ == (match default_schedule {
            Some(v) => if trim(v@).len() > 0 {
                trim(v@)
            } else {
                old(config).default_schedule@
            },
            None => old(config).default_schedule@,
        }),
        final(config).coin_tasks == (match coin_tasks {
            Some(v) => bool_env_spec(v@),
            None => old(config).coin_tasks,
        }),
        final(config).cloud_duration == (match cloud_duration {
            Some(v) => bool_env_spec(v@),
            None => old(config).cloud_duration,
        }),
        final(config).share_platform@ == (match share_platform {
            Some(v) => if trim(v@).len() > 0 {
                trim(v@)
            } else {
                old(config).share_platform@
            },
            None => old(config).share_platform@,
        }),
        final(config).schedules == old(config).schedules,
        final(config).web_username == old(config).web_username,
        final(config).web_password_hash == old(config).web_password_hash,
        final(config).web_password_salt == old(config).web_password_salt,
        final(config).web_password_version == old(config).web_password_version,
        final(config).web_password_must_change == old(config).web_password_must_change,
        final(config).credential_key == old(config).credential_key,
        final(config).max_retries == old(config).max_retries,
        final(config).crypto_policy == old(config).crypto_policy,
        final(config).lan_no_auth == old(config).lan_no_auth,
        final(config).lan_cidrs == old(config).lan_cidrs,
        final(config).initial_password_announced == old(config).initial_password_announced,
{
    match default_schedule {
        Some(v) => {
            let t = trim_chars(&chars_of(v));
            if t.len() > 0 {
                config.default_schedule = string_from_chars(&t);
            }
        },
        None => {},
    }
    match coin_tasks {
        Some(v) => {
            config.coin_tasks = parse_bool_env(v);
        },
        None => {},
    }
    match cloud_duration {
        Some(v) => {
            config.cloud_duration = parse_bool_env(v);
        },
        None => {},
    }
    match share_platform {
        Some(v) => {
            let t = trim_chars(&chars_of(v));
            if t.len() > 0 {
                config.share_platform = string_from_chars(&t);
            }
        },
        None => {},
    }
}

/// The accepted encryption policy for a requested one: `auto`, `always`
/// or `never`, trimmed and in any case.
pub open spec fn crypto_policy_spec(p: Seq<char>) -> Option<Seq<char>> {
    let l = lowercase_spec(trim(p));
    if l == "auto"@ || l == "always"@ || l == "never"@ {
        Some(l)
    } else {
        None
    }
}

/// Normalizes a requested encryption policy.
pub fn normalize_crypto_policy(p: &str) -> (r: Option<String>)
    ensures
        opt_view(r) == crypto_policy_spec(p@),
{
    let t = string_from_chars(&trim_chars(&chars_of(p)));
    let l = to_lowercase(t.as_str());
    if str_eq(l.as_str(), "auto") || str_eq(l.as_str(), "always") || str_eq(l.as_str(), "never") {
        Some(l)
    } else {
        None
    }
}

/// Whether a request must come encrypted: always under `always`, never
/// under `never`, and otherwise unless the peer is known to be on the LAN.
pub open spec fn require_encryption_spec(policy: Seq<char>, peer_is_lan: Option<bool>) -> bool {
    if policy == "always"@ {
        true
    } else if policy == "never"@ {
        false
    } else {
        match peer_is_lan {
            Some(lan) => !lan,
            None => true,
        }
    }
}

/// Decides whether a request must be encrypted.
pub fn require_encryption(policy: &str, peer_is_lan: Option<bool>) -> (b: bool)
    ensures
        b == require_encryption_spec(policy@, peer_is_lan),
{
    if str_eq(policy, "always") {
        true
    } else if str_eq(policy, "never") {
        false
    } else {
        match peer_is_lan {
            Some(lan) => !lan,
            None => true,
        }
    }
}

/// The no-auth mode admits a request: it is on, and where it is limited
/// to the LAN the peer is known to be on the LAN.
pub fn no_auth_allows(no_auth: bool, lan_no_auth: bool, peer_is_lan: Option<bool>) -> (b: bool)
    ensures
        b == (no_auth && (!lan_no_auth || peer_is_lan == Some(true))),
{
    no_auth && (!lan_no_auth || peer_is_lan == Some(true))
}

/// Sets (or, for `None`, clears) the schedule of account `id`; a time not
/// in `HH:MM` form is refused and nothing changes.
pub fn set_schedule(config: &mut Config, id: &str, time: Option<&str>) -> (r: Result<(), String>)
    requires
        old(config).schedules.wf(),
    ensures
        final(config).schedules.wf(),
        match time {
            Some(t) => if valid_hhmm_spec(t@) {
                &&& r is Ok
                &&& crate::protocol::has_entry(final(config).schedules.pairs(), id@, t@)
                &&& forall|v: Seq<char>|
                    crate::protocol::has_entry(final(config).schedules.pairs(), id@, v) ==> v == t@
                &&& forall|k: Seq<char>, v: Seq<char>|
                    k != id@ ==> (crate::protocol::has_entry(final(config).schedules.pairs(), k, v)
                        == crate::protocol::has_entry(old(config).schedules.pairs(), k, v))
            } else {
                r matches Err(m) && m@ == "时间格式应为 HH:MM"@ && *final(config) == *old(config)
            },
            None => {
                &&& r is Ok
                &&& forall|v: Seq<char>|
                    !crate::protocol::has_entry(final(config).schedules.pairs(), id@, v)
                &&& forall|k: Seq<char>, v: Seq<char>|
                    k != id@ ==> (crate::protocol::has_entry(final(config).schedules.pairs(), k, v)
                        == crate::protocol::has_entry(old(config).schedules.pairs(), k, v))
            },
        },
{
    match time {
        Some(t) => {
            if !valid_hhmm(t) {
                return Err("时间格式应为 HH:MM".to_owned());
            }
            config.schedules.set(id, t);
            Ok(())
        },
        None => {
            config.schedules.remove(id);
            Ok(())
        },
    }
}

/// The accounts without those with id `id`.
pub open spec fn without_account(s: Seq<Account>, id: Seq<char>) -> Seq<Account>
    decreases s.len(),
{
    if s.len() == 0 {
        Seq::empty()
    } else {
        let p = without_account(s.drop_last(), id);
        if s.last().id@ != id {
            p.push(s.last())
        } else {
            p
        }
    }
}

/// Deletes the accounts with id `id`; returns whether there was one.
pub fn delete_account(accounts: &mut Vec<Account>, id: &str) -> (changed: bool)
    ensures
        final(accounts)@ == without_account(old(accounts)@, id@),
        changed == exists|i: int| 0 <= i < old(accounts)@.len() && old(accounts)@[i].id@ == id@,
{
    let mut kept: Vec<Account> = Vec::new();
    let mut changed = false;
    let mut i: usize = 0;
    while i < accounts.len()
        invariant
            i <= accounts@.len(),
            kept@ == without_account(accounts@.take(i as int), id@),
            changed == exists|k: int| 0 <= k < i && accounts@[k].id@ == id@,
        decreases accounts@.len() - i,
    {
        proof {
            assert(accounts@.take(i + 1).drop_last() =~= accounts@.take(i as int));
        }
        if str_eq(accounts[i].id.as_str(), id) {
            changed = true;
        } else {
            kept.push(accounts[i].duplicate());
        }
        i = i + 1;
    }
    proof {
        assert(accounts@.take(accounts@.len() as int) =~= accounts@);
    }
    *accounts = kept;
    changed
}

/// The first index holding an account whose phone is `phone`.
pub open spec fn first_with_phone(s: Seq<Account>, phone: Option<String>) -> Option<int> {
    if exists|i: int| 0 <= i < s.len() && opt_view(s[i].phone) == opt_view(phone) {
        Some(
            choose|i: int|
                0 <= i < s.len() && opt_view(s[i].phone) == opt_view(phone) && forall|j: int|
                    0 <= j < i ==> opt_view(s[j].phone) != opt_view(phone),
        )
    } else {
        None
    }
}

fn same_opt(a: &Option<String>, b: &Option<String>) -> (r: bool)
    ensures
        r == (opt_view(*a) == opt_view(*b)),
{
    match (a, b) {
        (Some(x), Some(y)) => str_eq(x.as_str(), y.as_str()),
        (None, None) => true,
        _ => false,
    }
}

/// Stores a logged-in account: an account with the same phone number is
/// replaced in place, keeping its id and, where no name was given, its
/// name; otherwise the account is appended. Returns the stored account.
pub fn upsert_account(accounts: &mut Vec<Account>, account: Account, name_given: bool) -> (stored: Account)
    ensures
        match first_with_phone(old(accounts)@, account.phone) {
            Some(i) => {
                let o = old(accounts)@[i];
                &&& stored.id == o.id
                &&& stored.name == (if name_given {
                    account.name
                } else {
                    o.name
                })
                &&& stored.uid == account.uid
                &&& stored.phone == account.phone
                &&& stored.access_token == account.access_token
                &&& stored.refresh_token == account.refresh_token
                &&& stored.laohu_token == account.laohu_token
                &&& stored.laohu_user_id == account.laohu_user_id
                &&& stored.encrypted_password == account.encrypted_password
                &&& stored.device_id == account.device_id
                &&& stored.openudid == account.openudid
                &&& stored.vendorid == account.vendorid
                &&& stored.token_updated_at == account.token_updated_at
                &&& stored.role_id == account.role_id
                &&& stored.role_name == account.role_name
                &&& final(accounts)@ == old(accounts)@.update(i, stored)
            },
            None => stored == account && final(accounts)@ == old(accounts)@.push(account),
        },
{
    let mut i: usize = 0;
    while i < accounts.len()
        invariant
            i <= accounts@.len(),
            accounts@ == old(accounts)@,
            forall|j: int| 0 <= j < i ==> opt_view(accounts@[j].phone) != opt_view(account.phone),
        decreases accounts@.len() - i,
    {
        if same_opt(&accounts[i].phone, &account.phone) {
            proof {
                let w = choose|w: int|
                    0 <= w < accounts@.len() && opt_view(accounts@[w].phone) == opt_view(
                        account.phone,
                    ) && forall|j: int|
                        0 <= j < w ==> opt_view(accounts@[j].phone) != opt_view(account.phone);
                assert(w == i) by {
                    if w < i {
                        assert(opt_view(accounts@[w].phone) != opt_view(account.phone));
                    }
                    if w > i {
                        assert(opt_view(accounts@[i as int].phone) != opt_view(account.phone));
                    }
                }
            }
            let mut updated = account;
            updated.id = accounts[i].id.clone();
            if !name_given {
                updated.name = accounts[i].name.clone();
            }
            let stored = updated.duplicate();
            accounts.set(i, updated);
            return stored;
        }
        i = i + 1;
    }
    let stored = account.duplicate();
    accounts.push(account);
    stored
}

/// Replaces the first account with the id of `updated`; returns whether
/// there was one.
pub fn replace_account(accounts: &mut Vec<Account>, updated: Account) -> (found: bool)
    ensures
        found == exists|i: int| 0 <= i < old(accounts)@.len() && old(accounts)@[i].id@ == updated.id@,
        found ==> exists|i: int|
            0 <= i < old(accounts)@.len() && old(accounts)@[i].id@ == updated.id@ && (forall|j: int|
                0 <= j < i ==> old(accounts)@[j].id@ != updated.id@) && final(accounts)@ == old(
                accounts,
            )@.update(i, updated),
        !found ==> final(accounts)@ == old(accounts)@,
{
    let mut i: usize = 0;
    while i < accounts.len()
        invariant
            i <= accounts@.len(),
            accounts@ == old(accounts)@,
            forall|j: int| 0 <= j < i ==> accounts@[j].id@ != updated.id@,
        decreases accounts@.len() - i,
    {
        if str_eq(accounts[i].id.as_str(), updated.id.as_str()) {
            let ghost before = accounts@;
            accounts.set(i, updated);
            proof {
                assert(before[i as int].id@ == updated.id@);
                assert(accounts@ == before.update(i as int, updated));
            }
            return true;
        }
        i = i + 1;
    }
    false
}

/// A new account from a completed login: a fresh id, the given name where
/// it is not blank (else the default name from the masked phone), the
/// session of the login and the bound role where one was found.
pub fn account_from_login(
    identity: DeviceIdentity,
    phone: &str,
    name: Option<&str>,
    uid: String,
    access_token: String,
    refresh_token: String,
    laohu_token: String,
    laohu_user_id: String,
    bind_role: Option<(String, Option<String>)>,
) -> (a: Account)
    requires
        (name matches Some(n) && trim(n@).len() > 0) || maskable(phone@),
    ensures
        exists|b: Seq<u8>| b.len() == 4 && a.id@ == "acc"@ + hex_of(b),
        match name {
            Some(n) if trim(n@).len() > 0 => a.name@ == n@,
            _ => exists|head: Seq<char>, tail: Seq<char>|
                masked_phone(phone@, head, tail) && a.name@ == "账号 "@ + mask_spec(phone@, head, tail),
        },
        a.uid == uid,
        a.device_id == identity.device_id,
        a.openudid == Some(identity.openudid),
        a.vendorid == Some(identity.vendorid),
        a.access_token == Some(access_token),
        a.refresh_token == refresh_token,
        a.laohu_token == Some(laohu_token),
        a.laohu_user_id == Some(laohu_user_id),
        a.token_updated_at is Some,
        opt_view(a.phone) == Some(phone@),
        a.encrypted_password is None,
        a.role_id == (match bind_role {
            Some(r) => Some(r.0),
            None => None,
        }),
        a.role_name == (match bind_role {
            Some(r) => r.1,
            None => None,
        }),
{
    let given = match name {
        Some(n) => if trim_chars(&chars_of(n)).len() > 0 {
            Some(n.to_owned())
        } else {
            None
        },
        None => None,
    };
    let account_name = match given {
        Some(n) => n,
        None => gen_account_name(phone),
    };
    let (role_id, role_name) = match bind_role {
        Some((rid, rn)) => (Some(rid), rn),
        None => (None, None),
    };
    Account {
        id: gen_account_id(),
        name: account_name,
        uid,
        device_id: identity.device_id,
        openudid: Some(identity.openudid),
        vendorid: Some(identity.vendorid),
        access_token: Some(access_token),
        refresh_token,
        laohu_token: Some(laohu_token),
        laohu_user_id: Some(laohu_user_id),
        token_updated_at: Some(crate::time::shanghai_datetime()),
        phone: Some(phone.to_owned()),
        encrypted_password: None,
        role_id,
        role_name,
    }
}

/// Whether account `id` already checked in successfully on `today`.
pub fn signed_today(state: &ParamMap, id: &str, today: &str) -> (b: bool)
    requires
        state.wf(),
    ensures
        b == has_entry(state.pairs(), id@, today@),
{
    match state.get(id) {
        Some(d) => {
            let r = str_eq(d.as_str(), today);
            proof {
                if !r && has_entry(state.pairs(), id@, today@) {
                    state.lemma_unique_value(id@, d@, today@);
                }
            }
            r
        },
        None => false,
    }
}

/// Whether `id` is one of `ids`.
pub fn contains_id(ids: &[String], id: &str) -> (b: bool)
    ensures
        b == exists|i: int| 0 <= i < ids@.len() && ids@[i]@ == id@,
{
    let mut i: usize = 0;
    while i < ids.len()
        invariant
            i <= ids@.len(),
            forall|k: int| 0 <= k < i ==> ids@[k]@ != id@,
        decreases ids@.len() - i,
    {
        if str_eq(ids[i].as_str(), id) {
            return true;
        }
        i = i + 1;
    }
    false
}

/// Whether account `id` takes part in a run limited to `only`.
pub fn selected(only: Option<&[String]>, id: &str) -> (b: bool)
    ensures
        b == match only {
            Some(ids) => exists|i: int| 0 <= i < ids@.len() && ids@[i]@ == id@,
            None => true,
        },
{
    match only {
        Some(ids) => contains_id(ids, id),
        None => true,
    }
}

/// How many of `statuses` equal `status`.
pub open spec fn count_of(statuses: Seq<String>, status: Seq<char>) -> nat
    decreases statuses.len(),
{
    if statuses.len() == 0 {
        0
    } else {
        count_of(statuses.drop_last(), status) + if statuses.last()@ == status {
            1nat
        } else {
            0nat
        }
    }
}

/// Counts the results with a given status.
pub fn count_status(statuses: &[String], status: &str) -> (n: usize)
    ensures
        n == count_of(statuses@, status@),
{
    let mut n: usize = 0;
    let mut i: usize = 0;
    while i < statuses.len()
        invariant
            i <= statuses@.len(),
            n == count_of(statuses@.take(i as int), status@),
            n <= i,
        decreases statuses@.len() - i,
    {
        proof {
            assert(statuses@.take(i + 1).drop_last() =~= statuses@.take(i as int));
        }
        if str_eq(statuses[i].as_str(), status) {
            n = n + 1;
        }
        i = i + 1;
    }
    proof {
        assert(statuses@.take(statuses@.len() as int) =~= statuses@);
    }
    n
}

/// Records `today` for every account whose run succeeded.
pub fn record_successes(state: &mut ParamMap, outcomes: &[(String, String)], today: &str)
    requires
        old(state).wf(),
    ensures
        final(state).wf(),
        forall|i: int|
            0 <= i < outcomes@.len() && outcomes@[i].1@ == "success"@ ==> has_entry(
                final(state).pairs(),
                outcomes@[i].0@,
                today@,
            ),
        forall|k: Seq<char>, v: Seq<char>|
            (forall|i: int|
                0 <= i < outcomes@.len() && outcomes@[i].1@ == "success"@ ==> outcomes@[i].0@ != k)
                ==> (has_entry(final(state).pairs(), k, v) == has_entry(old(state).pairs(), k, v)),
{
    let ghost before = state.pairs();
    let mut i: usize = 0;
    while i < outcomes.len()
        invariant
            i <= outcomes@.len(),
            state.wf(),
            forall|j: int|
                0 <= j < i && outcomes@[j].1@ == "success"@ ==> has_entry(
                    state.pairs(),
                    outcomes@[j].0@,
                    today@,
                ),
            forall|k: Seq<char>, v: Seq<char>|
                (forall|j: int|
                    0 <= j < i && outcomes@[j].1@ == "success"@ ==> outcomes@[j].0@ != k) ==> (
                has_entry(state.pairs(), k, v) == has_entry(before, k, v)),
        decreases outcomes@.len() - i,
    {
        if str_eq(outcomes[i].1.as_str(), "success") {
            state.set(outcomes[i].0.as_str(), today);
        }
        i = i + 1;
    }
}

} // verus!
