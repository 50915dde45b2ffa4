//! Request signing and encoding for the game platform APIs: parameter maps
//! kept in key order, MD5 signatures, the `ds` header, AES-128-ECB field
//! encryption, form encoding, HMAC/HKDF-SHA256 and X25519.

use vstd::prelude::*;

pub use crate::primitives::{x25519_generate_secret, x25519_public_from_secret};

use crate::crypto::utf8;
use crate::form::{form_component, form_component_spec};
use crate::primitives::{
    x25519_shared_bytes, x25519_shared_spec, aes128_block_spec, aes128_encrypt_block, b64_std_encode, b64_std_encode_spec,
    md5_digest, md5_spec, random_bytes, random_u8, sha256, sha256_spec,
    unix_millis, unix_seconds,
};
use crate::text::{
    decimal, decimal_chars, hex_of, hex_string, lemma_lex_antisymmetric, lemma_lex_total,
    lemma_lex_transitive, lex_le, lex_lt, push_all, push_bytes, push_str, string_from_chars,
    sub_bytes, is_lower_hex, lemma_hex_lower,
};

verus! {

broadcast use vstd::utf8::group_utf8_lib;

/// `(key, value)` views of string pairs.
pub open spec fn pair_views(s: Seq<(String, String)>) -> Seq<(Seq<char>, Seq<char>)> {
    s.map_values(|e: (String, String)| (e.0@, e.1@))
}

/// Keys strictly increasing in lexicographic order.
pub open spec fn keys_sorted(s: Seq<(Seq<char>, Seq<char>)>) -> bool {
    forall|i: int, j: int| 0 <= i < j < s.len() ==> lex_lt(s[i].0, s[j].0)
}

/// `s` holds the entry `(k, v)`.
pub open spec fn has_entry(s: Seq<(Seq<char>, Seq<char>)>, k: Seq<char>, v: Seq<char>) -> bool {
    exists|i: int| 0 <= i < s.len() && s[i] == (k, v)
}

/// The value of the last pair with key `k`, if any.
pub open spec fn last_value(s: Seq<(Seq<char>, Seq<char>)>, k: Seq<char>) -> Option<Seq<char>>
    decreases s.len(),
{
    if s.len() == 0 {
        None
    } else if s.last().0 == k {
        Some(s.last().1)
    } else {
        last_value(s.drop_last(), k)
    }
}

/// String parameters kept in key order, each key once (the request
/// parameters are signed and encoded in this order).
pub struct ParamMap {
    entries: Vec<(String, String)>,
}

proof fn lemma_lex_lt_transitive(a: Seq<char>, b: Seq<char>, c: Seq<char>)
    requires
        lex_lt(a, b),
        lex_lt(b, c),
    ensures
        lex_lt(a, c),
{
    lemma_lex_transitive(a, b, c);
    if a == c {
        lemma_lex_antisymmetric(a, b);
    }
}

impl ParamMap {
    /// The entries in key order.
    pub closed spec fn pairs(&self) -> Seq<(Seq<char>, Seq<char>)> {
        pair_views(self.entries@)
    }

    /// Keys are strictly increasing.
    pub closed spec fn wf(&self) -> bool {
        keys_sorted(self.pairs())
    }

    /// A key has at most one value.
    pub proof fn lemma_unique_value(&self, k: Seq<char>, v1: Seq<char>, v2: Seq<char>)
        requires
            self.wf(),
            has_entry(self.pairs(), k, v1),
            has_entry(self.pairs(), k, v2),
        ensures
            v1 == v2,
    {
        let s = self.pairs();
        let i = choose|i: int| 0 <= i < s.len() && s[i] == (k, v1);
        let j = choose|j: int| 0 <= j < s.len() && s[j] == (k, v2);
        if i < j {
            assert(lex_lt(s[i].0, s[j].0));
        } else if j < i {
            assert(lex_lt(s[j].0, s[i].0));
        }
    }

    /// Keeps only the entries whose value is `value`.
    pub fn retain_value(&mut self, value: &str)
        requires
            old(self).wf(),
        ensures
            final(self).wf(),
            forall|k: Seq<char>, v: Seq<char>|
                has_entry(final(self).pairs(), k, v) <==> (has_entry(old(self).pairs(), k, v) && v
                    == value@),
    {
        let ghost old_pairs = self.pairs();
        let ghost mut src: Seq<int> = Seq::empty();
        let mut kept: Vec<(String, String)> = Vec::new();
        let mut i: usize = 0;
        while i < self.entries.len()
            invariant
                i <= self.entries@.len(),
                old_pairs == pair_views(self.entries@),
                keys_sorted(old_pairs),
                src.len() == kept@.len(),
                forall|k: int| 0 <= k < src.len() ==> 0 <= #[trigger] src[k] < i,
                forall|k: int| 0 <= k < src.len() ==> old_pairs[src[k]] == #[trigger] pair_views(kept@)[k],
                forall|a: int, b: int| 0 <= a < b < src.len() ==> src[a] < src[b],
                forall|k: int| 0 <= k < src.len() ==> old_pairs[#[trigger] src[k]].1 == value@,
                forall|j: int| 0 <= j < i && old_pairs[j].1 == value@ ==> exists|k: int| 0 <= k < src.len() && #[trigger] src[k] == j,
            decreases self.entries@.len() - i,
        {
            let ghost before = pair_views(kept@);
            let ghost src0 = src;
            assert(old_pairs[i as int] == (self.entries@[i as int].0@, self.entries@[i as int].1@));
            if crate::text::str_eq(self.entries[i].1.as_str(), value) {
                let e = (self.entries[i].0.clone(), self.entries[i].1.clone());
                kept.push(e);
                proof {
                    src = src.push(i as int);
                    assert(pair_views(kept@) =~= before.push(old_pairs[i as int]));
                    assert forall|k: int| 0 <= k < src.len() implies old_pairs[src[k]]
                        == #[trigger] pair_views(kept@)[k] by {
                        if k < src0.len() {
                            assert(old_pairs[src0[k]] == before[k]);
                        }
                    }
                    assert forall|j: int|
                        0 <= j < i + 1 && old_pairs[j].1 == value@ implies exists|k: int|
                        0 <= k < src.len() && #[trigger] src[k] == j by {
                        if j < i {
                            let k = choose|k: int| 0 <= k < src0.len() && #[trigger] src0[k] == j;
                            assert(src[k] == j);
                        } else {
                            assert(src[src.len() - 1] == j);
                        }
                    }
                }
            } else {
                proof {
                    assert forall|j: int|
                        0 <= j < i + 1 && old_pairs[j].1 == value@ implies exists|k: int|
                        0 <= k < src.len() && #[trigger] src[k] == j by {
                        if j < i {
                            let k = choose|k: int| 0 <= k < src0.len() && #[trigger] src0[k] == j;
                            assert(src[k] == j);
                        }
                    }
                }
            }
            i = i + 1;
        }
        proof {
            let np = pair_views(kept@);
            assert forall|a: int, b: int| 0 <= a < b < np.len() implies lex_lt(np[a].0, np[b].0) by {
                assert(old_pairs[src[a]] == np[a]);
                assert(old_pairs[src[b]] == np[b]);
            }
            assert forall|k: Seq<char>, v: Seq<char>|
                has_entry(np, k, v) <==> (has_entry(old_pairs, k, v) && v == value@) by {
                if has_entry(np, k, v) {
                    let w = choose|w: int| 0 <= w < np.len() && np[w] == (k, v);
                    assert(old_pairs[src[w]] == np[w]);
                }
                if has_entry(old_pairs, k, v) && v == value@ {
                    let j = choose|j: int| 0 <= j < old_pairs.len() && old_pairs[j] == (k, v);
                    let w = choose|w: int| 0 <= w < src.len() && src[w] == j;
                    assert(np[w] == (k, v));
                }
            }
        }
        self.entries = kept;
    }

    /// An empty map.
    pub fn new() -> (m: ParamMap)
        ensures
            m.wf(),
            m.pairs() == Seq::<(Seq<char>, Seq<char>)>::empty(),
    {
        let m = ParamMap { entries: Vec::new() };
        assert(m.pairs() =~= Seq::<(Seq<char>, Seq<char>)>::empty());
        m
    }

    /// Number of entries.
    pub fn len(&self) -> (n: usize)
        ensures
            n == self.pairs().len(),
    {
        self.entries.len()
    }

    fn key_below(&self, i: usize, k: &Vec<char>) -> (r: bool)
        requires
            i < self.pairs().len(),
        ensures
            r == lex_lt(self.pairs()[i as int].0, k@),
    {
        let ec = crate::text::chars_of(self.entries[i].0.as_str());
        crate::text::compare_chars(&ec, k) < 0
    }

    /// The value of `key`.
    pub fn get(&self, key: &str) -> (r: Option<String>)
        requires
            self.wf(),
        ensures
            match r {
                Some(v) => has_entry(self.pairs(), key@, v@),
                None => forall|v: Seq<char>| !has_entry(self.pairs(), key@, v),
            },
    {
        let mut i: usize = 0;
        while i < self.entries.len()
            invariant
                i <= self.pairs().len(),
                forall|j: int| 0 <= j < i ==> (#[trigger] self.pairs()[j]).0 != key@,
            decreases self.entries@.len() - i,
        {
            if crate::text::str_eq(self.entries[i].0.as_str(), key) {
                let v = self.entries[i].1.clone();
                assert(self.pairs()[i as int] == (key@, v@));
                return Some(v);
            }
            i = i + 1;
        }
        proof {
            assert forall|v: Seq<char>| !has_entry(self.pairs(), key@, v) by {
                if has_entry(self.pairs(), key@, v) {
                    let j = choose|j: int| 0 <= j < self.pairs().len() && self.pairs()[j] == (key@, v);
                    assert(self.pairs()[j].0 != key@);
                }
            }
        }
        None
    }

    /// Removes `key` and its value.
    pub fn remove(&mut self, key: &str)
        requires
            old(self).wf(),
        ensures
            final(self).wf(),
            forall|v: Seq<char>| !has_entry(final(self).pairs(), key@, v),
            forall|k2: Seq<char>, v2: Seq<char>|
                k2 != key@ ==> (has_entry(final(self).pairs(), k2, v2) <==> has_entry(
                    old(self).pairs(),
                    k2,
                    v2,
                )),
    {
        let ghost before = self.pairs();
        let mut i: usize = 0;
        while i < self.entries.len()
            invariant
                self.pairs() == before,
                before == old(self).pairs(),
                keys_sorted(before),
                i <= before.len(),
                forall|j: int| 0 <= j < i ==> (#[trigger] before[j]).0 != key@,
            decreases self.entries@.len() - i,
        {
            if crate::text::str_eq(self.entries[i].0.as_str(), key) {
                let _ = self.entries.remove(i);
                proof {
                    let after = self.pairs();
                    assert(after =~= before.remove(i as int));
                    assert forall|a: int, b: int| 0 <= a < b < after.len() implies lex_lt(after[a].0, after[b].0) by {
                        let a2 = if a < i { a } else { a + 1 };
                        let b2 = if b < i { b } else { b + 1 };
                        assert(after[a] == before[a2]);
                        assert(after[b] == before[b2]);
                    }
                    assert forall|v: Seq<char>| !has_entry(after, key@, v) by {
                        if has_entry(after, key@, v) {
                            let j = choose|j: int| 0 <= j < after.len() && after[j] == (key@, v);
                            let j2 = if j < i { j } else { j + 1 };
                            assert(before[j2].0 == key@);
                            assert(before[i as int].0 == key@);
                            if j2 < i {
                                assert(lex_lt(before[j2].0, before[i as int].0));
                            } else {
                                assert(lex_lt(before[i as int].0, before[j2].0));
                            }
                        }
                    }
                    assert forall|k2: Seq<char>, v2: Seq<char>| k2 != key@ implies (has_entry(after, k2, v2) <==> has_entry(before, k2, v2)) by {
                        if has_entry(after, k2, v2) {
                            let j = choose|j: int| 0 <= j < after.len() && after[j] == (k2, v2);
                            let j2 = if j < i { j } else { j + 1 };
                            assert(before[j2] == (k2, v2));
                        }
                        if has_entry(before, k2, v2) {
                            let j = choose|j: int| 0 <= j < before.len() && before[j] == (k2, v2);
                            assert(j != i);
                            let j2 = if j < i { j } else { j - 1 };
                            assert(after[j2] == (k2, v2));
                        }
                    }
                    assert(forall|k2: Seq<char>, v2: Seq<char>| k2 != key@ ==> (has_entry(self.pairs(), k2, v2) <==> has_entry(before, k2, v2)));
                }
                return;
            }
            i = i + 1;
        }
        proof {
            assert forall|v: Seq<char>| !has_entry(self.pairs(), key@, v) by {
                if has_entry(self.pairs(), key@, v) {
                    let j = choose|j: int| 0 <= j < self.pairs().len() && self.pairs()[j] == (key@, v);
                    assert(before[j].0 != key@);
                }
            }
        }
    }

    /// A copy of the map.
    pub fn duplicate(&self) -> (m: ParamMap)
        ensures
            m.pairs() == self.pairs(),
            m.wf() == self.wf(),
    {
        ParamMap { entries: self.to_vec() }
    }

    /// The entries, in key order.
    pub fn to_vec(&self) -> (v: Vec<(String, String)>)
        ensures
            pair_views(v@) == self.pairs(),
    {
        let mut v: Vec<(String, String)> = Vec::new();
        let mut i: usize = 0;
        while i < self.entries.len()
            invariant
                i <= self.entries@.len(),
                v@.len() == i,
                pair_views(v@) == self.pairs().take(i as int),
            decreases self.entries@.len() - i,
        {
            let k = self.entries[i].0.clone();
            let x = self.entries[i].1.clone();
            let ghost prev = v@;
            v.push((k, x));
            proof {
                assert(v@ == prev.push((k, x)));
                assert(pair_views(v@)[i as int] == (k@, x@));
                assert(self.pairs()[i as int] == (self.entries@[i as int].0@, self.entries@[i as int].1@));
                assert forall|m: int| 0 <= m < i implies pair_views(v@)[m] == pair_views(prev)[m] by {
                    assert(v@[m] == prev[m]);
                }
                assert(pair_views(v@) =~= self.pairs().take(i + 1));
            }
            i = i + 1;
        }
        assert(self.pairs().take(self.entries@.len() as int) =~= self.pairs());
        v
    }

    /// Sets `key` to `value`, stated as a map: afterwards the map holds
    /// `(key, value)`, no other value for `key`, and the same entries as
    /// before for every other key.
    pub fn set(&mut self, key: &str, value: &str)
        requires
            old(self).wf(),
        ensures
            final(self).wf(),
            has_entry(final(self).pairs(), key@, value@),
            forall|v2: Seq<char>| has_entry(final(self).pairs(), key@, v2) ==> v2 == value@,
            forall|k2: Seq<char>, v2: Seq<char>|
                k2 != key@ ==> (has_entry(final(self).pairs(), k2, v2) <==> has_entry(
                    old(self).pairs(),
                    k2,
                    v2,
                )),
    {
        let ghost before = self.pairs();
        self.insert(key.to_owned(), value.to_owned());
        proof {
            let i = choose|i: int|
                0 <= i <= before.len() && (forall|j: int|
                    0 <= j < i ==> lex_lt(#[trigger] before[j].0, key@)) && if i < before.len()
                    && before[i].0 == key@ {
                    self.pairs() == before.update(i, (key@, value@))
                } else {
                    &&& self.pairs() == before.insert(i, (key@, value@))
                    &&& i < before.len() ==> lex_lt(key@, before[i].0)
                };
            lemma_insert_then_lookup(before, self.pairs(), i, key@, value@);
        }
    }

    /// A map of the given pairs; where a key repeats, its last value stays.
    pub fn from_pairs(pairs: &[(&str, &str)]) -> (m: ParamMap)
        ensures
            m.wf(),
            forall|k: Seq<char>, v: Seq<char>|
                has_entry(m.pairs(), k, v) <==> last_value(str_pair_views(pairs@), k) == Some(v),
    {
        let mut m = ParamMap::new();
        let n = pairs.len();
        let mut i: usize = 0;
        while i < n
            invariant
                n == pairs@.len(),
                i <= n,
                m.wf(),
                forall|k: Seq<char>, v: Seq<char>|
                    has_entry(m.pairs(), k, v) <==> last_value(
                        str_pair_views(pairs@).subrange(0, i as int),
                        k,
                    ) == Some(v),
            decreases n - i,
        {
            let (k, v) = pairs[i];
            m.set(k, v);
            proof {
                let pv = str_pair_views(pairs@);
                assert(pv.subrange(0, i + 1).drop_last() =~= pv.subrange(0, i as int));
                assert(pv.subrange(0, i + 1).last() == (k@, v@));
            }
            i = i + 1;
        }
        proof {
            assert(str_pair_views(pairs@).subrange(0, n as int) =~= str_pair_views(pairs@));
        }
        m
    }

    /// Sets `key` to `value`: replaces the value of an existing key, or puts
    /// the new entry at its place in key order.
    pub fn insert(&mut self, key: String, value: String)
        requires
            old(self).wf(),
        ensures
            final(self).wf(),
            exists|i: int|
                0 <= i <= old(self).pairs().len() && (forall|j: int|
                    0 <= j < i ==> lex_lt(#[trigger] old(self).pairs()[j].0, key@)) && if i < old(
                    self,
                ).pairs().len() && old(self).pairs()[i].0 == key@ {
                    final(self).pairs() == old(self).pairs().update(i, (key@, value@))
                } else {
                    &&& final(self).pairs() == old(self).pairs().insert(i, (key@, value@))
                    &&& i < old(self).pairs().len() ==> lex_lt(key@, old(self).pairs()[i].0)
                },
    {
        let ghost old_pairs = self.pairs();
        let n = self.entries.len();
        let kc = crate::text::chars_of(key.as_str());
        let mut i: usize = 0;
        while i < n && self.key_below(i, &kc)
            invariant
                n == self.entries@.len(),
                i <= n,
                self.pairs() == old_pairs,
                kc@ == key@,
                forall|j: int| 0 <= j < i ==> lex_lt(#[trigger] old_pairs[j].0, key@),
            decreases n - i,
        {
            i = i + 1;
        }
        let same = if i < n {
            let ec = crate::text::chars_of(self.entries[i].0.as_str());
            crate::text::chars_eq(&ec, &kc)
        } else {
            false
        };
        if same {
            self.entries.set(i, (key, value));
            proof {
                assert(self.pairs() =~= old_pairs.update(i as int, (key@, value@)));
                assert forall|a: int, b: int| 0 <= a < b < self.pairs().len() implies lex_lt(
                    self.pairs()[a].0,
                    self.pairs()[b].0,
                ) by {
                    assert(self.pairs()[a].0 == old_pairs[a].0);
                    assert(self.pairs()[b].0 == old_pairs[b].0);
                }
            }
        } else {
            proof {
                if i < n {
                    lemma_lex_total(old_pairs[i as int].0, key@);
                    assert(lex_lt(key@, old_pairs[i as int].0));
                }
            }
            self.entries.insert(i, (key, value));
            proof {
                assert(self.pairs() =~= old_pairs.insert(i as int, (key@, value@)));
                assert forall|a: int, b: int| 0 <= a < b < self.pairs().len() implies lex_lt(
                    self.pairs()[a].0,
                    self.pairs()[b].0,
                ) by {
                    let p = self.pairs();
                    if b < i {
                    } else if b == i {
                    } else if a == i {
                        if b - 1 > i {
                            lemma_lex_lt_transitive(key@, old_pairs[i as int].0, old_pairs[b - 1].0);
                        }
                    } else if a < i {
                        if b - 1 > i {
                            lemma_lex_lt_transitive(old_pairs[a].0, old_pairs[i as int].0, old_pairs[b - 1].0);
                        } else {
                            assert(lex_lt(old_pairs[a].0, key@));
                            lemma_lex_lt_transitive(old_pairs[a].0, key@, old_pairs[i as int].0);
                        }
                    } else {
                    }
                }
            }
        }
    }
}

/// After inserting `(k, v)` into a key-ordered map, the map holds `(k, v)`,
/// no other value for `k`, and exactly the entries it held before for every
/// other key.
pub proof fn lemma_insert_then_lookup(
    before: Seq<(Seq<char>, Seq<char>)>,
    after: Seq<(Seq<char>, Seq<char>)>,
    i: int,
    k: Seq<char>,
    v: Seq<char>,
)
    requires
        keys_sorted(before),
        0 <= i <= before.len(),
        forall|j: int| 0 <= j < i ==> lex_lt(#[trigger] before[j].0, k),
        i < before.len() && before[i].0 != k ==> lex_lt(k, before[i].0),
        if i < before.len() && before[i].0 == k {
            after == before.update(i, (k, v))
        } else {
            after == before.insert(i, (k, v))
        },
    ensures
        has_entry(after, k, v),
        forall|v2: Seq<char>| has_entry(after, k, v2) ==> v2 == v,
        forall|k2: Seq<char>, v2: Seq<char>|
            k2 != k ==> (has_entry(after, k2, v2) <==> has_entry(before, k2, v2)),
{
    if i < before.len() && before[i].0 == k {
        assert(after[i] == (k, v));
        assert forall|v2: Seq<char>| has_entry(after, k, v2) implies v2 == v by {
            let j = choose|j: int| 0 <= j < after.len() && after[j] == (k, v2);
            if j != i {
                assert(after[j] == before[j]);
                if j < i {
                    assert(lex_lt(before[j].0, before[i].0));
                } else {
                    assert(lex_lt(before[i].0, before[j].0));
                }
            }
        }
        assert forall|k2: Seq<char>, v2: Seq<char>| k2 != k implies (has_entry(after, k2, v2)
            <==> has_entry(before, k2, v2)) by {
            if has_entry(after, k2, v2) {
                let j = choose|j: int| 0 <= j < after.len() && after[j] == (k2, v2);
                assert(before[j] == (k2, v2));
            }
            if has_entry(before, k2, v2) {
                let j = choose|j: int| 0 <= j < before.len() && before[j] == (k2, v2);
                assert(after[j] == (k2, v2));
            }
        }
    } else {
        assert(after[i] == (k, v));
        assert forall|v2: Seq<char>| has_entry(after, k, v2) implies v2 == v by {
            let j = choose|j: int| 0 <= j < after.len() && after[j] == (k, v2);
            if j < i {
                assert(after[j] == before[j]);
                assert(lex_lt(before[j].0, k));
            } else if j > i {
                assert(after[j] == before[j - 1]);
                if j - 1 > i {
                    lemma_lex_lt_transitive(k, before[i].0, before[j - 1].0);
                }
            }
        }
        assert forall|k2: Seq<char>, v2: Seq<char>| k2 != k implies (has_entry(after, k2, v2)
            <==> has_entry(before, k2, v2)) by {
            if has_entry(after, k2, v2) {
                let j = choose|j: int| 0 <= j < after.len() && after[j] == (k2, v2);
                if j < i {
                    assert(before[j] == (k2, v2));
                } else {
                    assert(before[j - 1] == (k2, v2));
                }
            }
            if has_entry(before, k2, v2) {
                let j = choose|j: int| 0 <= j < before.len() && before[j] == (k2, v2);
                if j < i {
                    assert(after[j] == (k2, v2));
                } else {
                    assert(after[j + 1] == (k2, v2));
                }
            }
        }
    }
}

/// Lowercase hex of the MD5 digest of the UTF-8 text.
pub open spec fn md5_hex_spec(s: Seq<char>) -> Seq<char> {
    hex_of(md5_spec(utf8(s)))
}

/// `format!("{:x}", md5::compute(s))`.
pub fn md5_hex(s: &str) -> (h: String)
    ensures
        h@ == md5_hex_spec(s@),
        h@.len() == 32,
        is_lower_hex(h@),
{
    let d = md5_digest(s.as_bytes());
    proof {
        lemma_hex_lower(d@);
    }
    hex_string(d.as_slice())
}

/// The values of `s`, concatenated in order.
pub open spec fn values_joined(s: Seq<(Seq<char>, Seq<char>)>) -> Seq<char>
    decreases s.len(),
{
    if s.len() == 0 {
        Seq::empty()
    } else {
        values_joined(s.drop_last()) + s.last().1
    }
}

/// The platform signature: MD5 hex of the values in key order followed by
/// the secret.
pub open spec fn sign_spec(data: Seq<(Seq<char>, Seq<char>)>, secret: Seq<char>) -> Seq<char> {
    md5_hex_spec(values_joined(data) + secret)
}

/// Keys never enter the signature: parameter lists with the same values in
/// the same order sign alike, and the signature is the MD5 hex of the values
/// joined in order followed by the secret.
pub proof fn lemma_sign_values_only(a: Seq<(Seq<char>, Seq<char>)>, b: Seq<(Seq<char>, Seq<char>)>, secret: Seq<char>)
    requires
        a.len() == b.len(),
        forall|i: int| 0 <= i < a.len() ==> a[i].1 == b[i].1,
    ensures
        sign_spec(a, secret) == sign_spec(b, secret),
        sign_spec(a, secret) == md5_hex_spec(values_joined(a) + secret),
{
    lemma_values_joined_same(a, b);
}

proof fn lemma_values_joined_same(a: Seq<(Seq<char>, Seq<char>)>, b: Seq<(Seq<char>, Seq<char>)>)
    requires
        a.len() == b.len(),
        forall|i: int| 0 <= i < a.len() ==> a[i].1 == b[i].1,
    ensures
        values_joined(a) == values_joined(b),
    decreases a.len(),
{
    if a.len() > 0 {
        let (x, y) = (a.drop_last(), b.drop_last());
        assert forall|i: int| 0 <= i < x.len() implies x[i].1 == y[i].1 by {
            assert(x[i] == a[i]);
            assert(y[i] == b[i]);
        }
        lemma_values_joined_same(x, y);
        assert(a.last().1 == b.last().1);
    }
}

/// Signs request parameters: the values joined in key order, then `secret`,
/// hashed with MD5.
pub fn sign(data: &ParamMap, secret: &str) -> (s: String)
    ensures
        s@ == sign_spec(data.pairs(), secret@),
        s@.len() == 32,
        is_lower_hex(s@),
{
    let mut joined: Vec<char> = Vec::new();
    let n = data.entries.len();
    let mut i: usize = 0;
    while i < n
        invariant
            n == data.pairs().len(),
            i <= n,
            joined@ == values_joined(data.pairs().subrange(0, i as int)),
        decreases n - i,
    {
        push_str(&mut joined, data.entries[i].1.as_str());
        proof {
            assert(data.pairs().subrange(0, i + 1).drop_last() =~= data.pairs().subrange(0, i as int));
        }
        i = i + 1;
    }
    push_str(&mut joined, secret);
    proof {
        assert(data.pairs().subrange(0, n as int) =~= data.pairs());
    }
    let text = string_from_chars(&joined);
    md5_hex(text.as_str())
}

/// One `key=value` pair appended to form-encoded text, with `&` before it
/// when the text is not empty (`form_urlencoded::Serializer::append_pair`).
pub open spec fn form_append(out: Seq<char>, k: Seq<char>, v: Seq<char>) -> Seq<char> {
    (if out.len() > 0 {
        out.push('&')
    } else {
        out
    }) + form_component_spec(k) + seq!['='] + form_component_spec(v)
}

/// Form encoding of the pairs in order, skipping empty values unless
/// `include_empty`.
pub open spec fn form_spec(s: Seq<(Seq<char>, Seq<char>)>, include_empty: bool) -> Seq<char>
    decreases s.len(),
{
    if s.len() == 0 {
        Seq::empty()
    } else {
        let rest = form_spec(s.drop_last(), include_empty);
        let (k, v) = s.last();
        if !include_empty && v.len() == 0 {
            rest
        } else {
            form_append(rest, k, v)
        }
    }
}

fn append_pair(out: &mut Vec<char>, k: &str, v: &str)
    ensures
        final(out)@ == form_append(old(out)@, k@, v@),
{
    if out.len() > 0 {
        out.push('&');
    }
    let ke = form_component(k);
    let ve = form_component(v);
    push_str(out, ke.as_str());
    out.push('=');
    push_str(out, ve.as_str());
}

/// `application/x-www-form-urlencoded` text of the parameters in key order;
/// empty values are left out unless `include_empty`.
pub fn form_encode(data: &ParamMap, include_empty: bool) -> (s: String)
    ensures
        s@ == form_spec(data.pairs(), include_empty),
{
    let mut out: Vec<char> = Vec::new();
    let n = data.entries.len();
    let mut i: usize = 0;
    while i < n
        invariant
            n == data.pairs().len(),
            i <= n,
            out@ == form_spec(data.pairs().subrange(0, i as int), include_empty),
        decreases n - i,
    {
        let k = data.entries[i].0.as_str();
        let v = data.entries[i].1.as_str();
        proof {
            assert(data.pairs().subrange(0, i + 1).drop_last() =~= data.pairs().subrange(0, i as int));
            assert(data.pairs().subrange(0, i + 1).last() == (k@, v@));
        }
        if include_empty || !v.is_empty() {
            append_pair(&mut out, k, v);
        }
        i = i + 1;
    }
    proof {
        assert(data.pairs().subrange(0, n as int) =~= data.pairs());
    }
    string_from_chars(&out)
}

/// `(key, value)` views of string-slice pairs.
pub open spec fn str_pair_views(s: Seq<(&str, &str)>) -> Seq<(Seq<char>, Seq<char>)> {
    s.map_values(|e: (&str, &str)| (e.0@, e.1@))
}

/// Form encoding of the pairs in the order given, empty values included.
pub fn form_encode_pairs(pairs: &[(&str, &str)]) -> (s: String)
    ensures
        s@ == form_spec(str_pair_views(pairs@), true),
{
    let mut out: Vec<char> = Vec::new();
    let n = pairs.len();
    let mut i: usize = 0;
    while i < n
        invariant
            n == pairs@.len(),
            i <= n,
            out@ == form_spec(str_pair_views(pairs@).subrange(0, i as int), true),
        decreases n - i,
    {
        let (k, v) = pairs[i];
        proof {
            assert(str_pair_views(pairs@).subrange(0, i + 1).drop_last() =~= str_pair_views(
                pairs@,
            ).subrange(0, i as int));
        }
        append_pair(&mut out, k, v);
        i = i + 1;
    }
    proof {
        assert(str_pair_views(pairs@).subrange(0, n as int) =~= str_pair_views(pairs@));
    }
    string_from_chars(&out)
}

/// The signed form body: the parameters with `sign` set to their
/// signature, form-encoded.
pub fn signed_body(data: ParamMap, secret: &str, include_empty: bool) -> (body: String)
    requires
        data.wf(),
    ensures
        exists|m: ParamMap|
            #![trigger m.pairs()]
            m.wf() && has_entry(m.pairs(), "sign"@, sign_spec(data.pairs(), secret@)) && (forall|
                k2: Seq<char>,
                v2: Seq<char>,
            | k2 != "sign"@ ==> (has_entry(m.pairs(), k2, v2) <==> has_entry(data.pairs(), k2, v2)))
                && body@ == form_spec(m.pairs(), include_empty),
{
    let signature = sign(&data, secret);
    let ghost before = data.pairs();
    let ghost sig = signature@;
    let mut data = data;
    data.insert("sign".to_owned(), signature);
    proof {
        let i = choose|i: int|
            0 <= i <= before.len() && (forall|j: int|
                0 <= j < i ==> lex_lt(#[trigger] before[j].0, "sign"@)) && if i < before.len()
                && before[i].0 == "sign"@ {
                data.pairs() == before.update(i, ("sign"@, sig))
            } else {
                &&& data.pairs() == before.insert(i, ("sign"@, sig))
                &&& i < before.len() ==> lex_lt("sign"@, before[i].0)
            };
        lemma_insert_then_lookup(before, data.pairs(), i, "sign"@, sig);
    }
    form_encode(&data, include_empty)
}

/// PKCS#7 padding to a multiple of 16 bytes (1 to 16 padding bytes).
pub open spec fn pkcs7_spec(data: Seq<u8>) -> Seq<u8> {
    let pad = 16 - data.len() % 16;
    data + Seq::new(pad as nat, |i: int| pad as u8)
}

/// AES-128 in ECB mode over whole 16-byte blocks.
pub open spec fn ecb_spec(key: Seq<u8>, data: Seq<u8>) -> Seq<u8>
    decreases data.len(),
{
    if data.len() < 16 {
        Seq::empty()
    } else {
        ecb_spec(key, data.take(data.len() - 16)) + aes128_block_spec(key, data.skip(data.len() - 16))
    }
}

/// The field encryption of the login API: AES-128-ECB with PKCS#7 padding
/// under the last 16 bytes of the secret, Base64 (standard alphabet).
pub open spec fn aes_ecb_base64_spec(value: Seq<char>, secret: Seq<char>) -> Seq<char> {
    let s = utf8(secret);
    b64_std_encode_spec(ecb_spec(s.skip(s.len() - 16), pkcs7_spec(utf8(value))))
}

/// Encrypts a login field as the platform expects. The secret must have at
/// least 16 bytes (the key is its last 16).
pub fn aes_ecb_base64(value: &str, secret: &str) -> (s: String)
    requires
        utf8(secret@).len() >= 16,
        utf8(value@).len() + 16 <= usize::MAX,
    ensures
        s@ == aes_ecb_base64_spec(value@, secret@),
{
    let sb = secret.as_bytes();
    let key = sub_bytes(sb, sb.len() - 16, sb.len());
    let mut data: Vec<u8> = Vec::new();
    push_bytes(&mut data, value.as_bytes());
    let pad: usize = 16 - data.len() % 16;
    let ghost unpadded = data@;
    let mut k: usize = 0;
    while k < pad
        invariant
            1 <= pad <= 16,
            k <= pad,
            data@ == unpadded + Seq::new(k as nat, |i: int| pad as u8),
        decreases pad - k,
    {
        data.push(pad as u8);
        proof {
            assert(unpadded + Seq::new((k + 1) as nat, |i: int| pad as u8) =~= (unpadded + Seq::new(
                k as nat,
                |i: int| pad as u8,
            )).push(pad as u8));
        }
        k = k + 1;
    }
    assert(data@ =~= pkcs7_spec(utf8(value@)));
    assert(data@.len() % 16 == 0);
    let mut out: Vec<u8> = Vec::new();
    let mut off: usize = 0;
    while off < data.len()
        invariant
            off <= data@.len(),
            off % 16 == 0,
            data@.len() % 16 == 0,
            key@.len() == 16,
            out@ == ecb_spec(key@, data@.take(off as int)),
        decreases data.len() - off,
    {
        let block = sub_bytes(data.as_slice(), off, off + 16);
        let enc = aes128_encrypt_block(key.as_slice(), block.as_slice());
        push_bytes(&mut out, enc.as_slice());
        proof {
            let t = data@.take(off + 16);
            assert(t.take(t.len() - 16) =~= data@.take(off as int));
            assert(t.skip(t.len() - 16) =~= block@);
        }
        off = off + 16;
    }
    assert(data@.take(data@.len() as int) =~= data@);
    b64_std_encode(out.as_slice())
}

/// The characters of request nonces.
pub open spec fn nonce_alphabet() -> Seq<char> {
    "abcdefghijklmnopqrstuvwxyzABCDEFGHIJKLMNOPQRSTUVWXYZ0123456789"@
}

fn nonce_char(i: u8) -> (c: char)
    requires
        i < 62,
    ensures
        nonce_alphabet().contains(c),
{
    let a: [char; 62] = [
        'a', 'b', 'c', 'd', 'e', 'f', 'g', 'h', 'i', 'j', 'k', 'l', 'm', 'n', 'o', 'p', 'q',
        'r', 's', 't', 'u', 'v', 'w', 'x', 'y', 'z', 'A', 'B', 'C', 'D', 'E', 'F', 'G', 'H',
        'I', 'J', 'K', 'L', 'M', 'N', 'O', 'P', 'Q', 'R', 'S', 'T', 'U', 'V', 'W', 'X', 'Y',
        'Z', '0', '1', '2', '3', '4', '5', '6', '7', '8', '9',
    ];
    proof {
        reveal_strlit("abcdefghijklmnopqrstuvwxyzABCDEFGHIJKLMNOPQRSTUVWXYZ0123456789");
        assert(a@ =~= nonce_alphabet());
        assert(nonce_alphabet()[i as int] == a@[i as int]);
    }
    a[i as usize]
}

/// An 8-character random nonce over `nonce_alphabet`; bytes at or above
/// 248 (= 4 · 62) are drawn again so every character is equally likely.
pub fn make_nonce() -> (n: String)
    ensures
        n@.len() == 8,
        forall|i: int| 0 <= i < 8 ==> nonce_alphabet().contains(#[trigger] n@[i]),
{
    let mut out: Vec<char> = Vec::new();
    let mut draws: u64 = 0;
    while out.len() < 8 && draws < u64::MAX
        invariant
            out@.len() <= 8,
            forall|i: int| 0 <= i < out@.len() ==> nonce_alphabet().contains(#[trigger] out@[i]),
        decreases u64::MAX - draws,
    {
        draws = draws + 1;
        let b = random_u8();
        if b < 248 {
            out.push(nonce_char(b % 62));
        }
    }
    while out.len() < 8
        invariant
            out@.len() <= 8,
            forall|i: int| 0 <= i < out@.len() ==> nonce_alphabet().contains(#[trigger] out@[i]),
        decreases 8 - out@.len(),
    {
        let b = random_u8();
        out.push(nonce_char(b % 62));
    }
    string_from_chars(&out)
}

/// The `ds` header: `{timestamp},{nonce},{md5(timestamp nonce version secret)}`.
pub open spec fn ds_spec(timestamp: nat, nonce: Seq<char>, app_version: Seq<char>, secret: Seq<char>) -> Seq<char> {
    decimal(timestamp) + seq![','] + nonce + seq![','] + md5_hex_spec(
        decimal(timestamp) + nonce + app_version + secret,
    )
}

/// The `ds` header is `timestamp,nonce,signature`: it starts with the
/// decimal timestamp, a comma, the nonce and a comma, and ends with the MD5
/// hex of the timestamp, nonce, app version and secret run together.
pub proof fn lemma_ds_shape(timestamp: nat, nonce: Seq<char>, app_version: Seq<char>, secret: Seq<char>)
    ensures
        ({
            let ds = ds_spec(timestamp, nonce, app_version, secret);
            let head = decimal(timestamp) + seq![','] + nonce + seq![','];
            &&& ds.subrange(0, head.len() as int) == head
            &&& ds.subrange(head.len() as int, ds.len() as int) == md5_hex_spec(
                decimal(timestamp) + nonce + app_version + secret,
            )
        }),
{
    let ds = ds_spec(timestamp, nonce, app_version, secret);
    let head = decimal(timestamp) + seq![','] + nonce + seq![','];
    assert(ds.subrange(0, head.len() as int) =~= head);
    assert(ds.subrange(head.len() as int, ds.len() as int) =~= md5_hex_spec(
        decimal(timestamp) + nonce + app_version + secret,
    ));
}

/// Builds the `ds` request header from the timestamp, a nonce, the app
/// version and the signing secret.
pub fn make_ds(timestamp: u64, nonce: &str, app_version: &str, ds_secret: &str) -> (ds: String)
    ensures
        ds@ == ds_spec(timestamp as nat, nonce@, app_version@, ds_secret@),
        ds@.len() >= 32,
        is_lower_hex(ds@.subrange(ds@.len() - 32, ds@.len() as int)),
{
    let ts = decimal_chars(timestamp);
    let mut msg: Vec<char> = Vec::new();
    push_all(&mut msg, &ts);
    push_str(&mut msg, nonce);
    push_str(&mut msg, app_version);
    push_str(&mut msg, ds_secret);
    let msg_text = string_from_chars(&msg);
    let signature = md5_hex(msg_text.as_str());
    let mut out: Vec<char> = Vec::new();
    push_all(&mut out, &ts);
    out.push(',');
    push_str(&mut out, nonce);
    out.push(',');
    push_str(&mut out, signature.as_str());
    proof {
        assert(msg@ =~= decimal(timestamp as nat) + nonce@ + app_version@ + ds_secret@);
        assert(out@ =~= ds_spec(timestamp as nat, nonce@, app_version@, ds_secret@));
        assert(out@.subrange(out@.len() - 32, out@.len() as int) =~= signature@);
    }
    string_from_chars(&out)
}

/// A random 32-character hex device id (16 random bytes).
pub fn random_hex_32() -> (s: String)
    ensures
        exists|b: Seq<u8>| b.len() == 16 && s@ == hex_of(b),
        s@.len() == 32,
{
    let bytes = random_bytes(16);
    proof {
        crate::text::lemma_hex_len(bytes@);
    }
    hex_string(bytes.as_slice())
}

/// The values of the base parameters of the Android login API that differ
/// between app releases.
pub struct LaohuProfile {
    pub app_id: String,
    pub channel_id: String,
    pub device_model: String,
    pub device_sys: String,
    pub sdk_version: String,
    pub version_code: String,
}

/// The base parameters of the Android login API, in the order they are set.
/// `version_field == "versionCode"` adds `imei` and `versionCode`; any other
/// value adds `mac` and `version`.
pub open spec fn laohu_base_spec(
    p: LaohuProfile,
    device_id: Seq<char>,
    t: Seq<char>,
    version_field: Seq<char>,
) -> Seq<(Seq<char>, Seq<char>)> {
    let common = seq![
        ("adm"@, ""@),
        ("appId"@, p.app_id@),
        ("bid"@, "com.pwrd.htassistant"@),
        ("channelId"@, p.channel_id@),
        ("deviceId"@, device_id),
        ("deviceModel"@, p.device_model@),
        ("deviceName"@, p.device_model@),
        ("deviceSys"@, p.device_sys@),
        ("deviceType"@, p.device_model@),
        ("idfa"@, ""@),
        ("sdkVersion"@, p.sdk_version@),
        ("t"@, t),
    ];
    if version_field == "versionCode"@ {
        common + seq![("imei"@, ""@), ("versionCode"@, p.version_code@)]
    } else {
        common + seq![("mac"@, ""@), ("version"@, p.version_code@)]
    }
}

/// Each base parameter of the Android login API carries the profile field
/// (or argument) of its own name: `appId` the app id, `channelId` the
/// channel id, `deviceId` the device id, the three device names the model,
/// `deviceSys` the system, `sdkVersion` the SDK version, `t` the time, and
/// the version field the version code.
pub proof fn lemma_laohu_base_fields(p: LaohuProfile, device_id: Seq<char>, t: Seq<char>, version_field: Seq<char>)
    ensures
        last_value(laohu_base_spec(p, device_id, t, version_field), "appId"@) == Some(p.app_id@),
        last_value(laohu_base_spec(p, device_id, t, version_field), "channelId"@) == Some(p.channel_id@),
        last_value(laohu_base_spec(p, device_id, t, version_field), "deviceId"@) == Some(device_id),
        last_value(laohu_base_spec(p, device_id, t, version_field), "deviceModel"@) == Some(p.device_model@),
        last_value(laohu_base_spec(p, device_id, t, version_field), "deviceName"@) == Some(p.device_model@),
        last_value(laohu_base_spec(p, device_id, t, version_field), "deviceType"@) == Some(p.device_model@),
        last_value(laohu_base_spec(p, device_id, t, version_field), "deviceSys"@) == Some(p.device_sys@),
        last_value(laohu_base_spec(p, device_id, t, version_field), "sdkVersion"@) == Some(p.sdk_version@),
        last_value(laohu_base_spec(p, device_id, t, version_field), "t"@) == Some(t),
        last_value(laohu_base_spec(p, device_id, t, version_field), "bid"@) == Some("com.pwrd.htassistant"@),
        version_field == "versionCode"@ ==> last_value(laohu_base_spec(p, device_id, t, version_field), "versionCode"@)
            == Some(p.version_code@),
        version_field != "versionCode"@ ==> last_value(laohu_base_spec(p, device_id, t, version_field), "version"@)
            == Some(p.version_code@),
{
    reveal_strlit("adm");
    reveal_strlit("appId");
    reveal_strlit("bid");
    reveal_strlit("channelId");
    reveal_strlit("deviceId");
    reveal_strlit("deviceModel");
    reveal_strlit("deviceName");
    reveal_strlit("deviceSys");
    reveal_strlit("deviceType");
    reveal_strlit("idfa");
    reveal_strlit("sdkVersion");
    reveal_strlit("t");
    reveal_strlit("imei");
    reveal_strlit("versionCode");
    reveal_strlit("mac");
    reveal_strlit("version");
    let b = laohu_base_spec(p, device_id, t, version_field);
    assert(b.len() == 14);
    if version_field == "versionCode"@ {
        assert(b[0].0 == "adm"@);
        assert(b[1].0 == "appId"@);
        assert(b[2].0 == "bid"@);
        assert(b[3].0 == "channelId"@);
        assert(b[4].0 == "deviceId"@);
        assert(b[5].0 == "deviceModel"@);
        assert(b[6].0 == "deviceName"@);
        assert(b[7].0 == "deviceSys"@);
        assert(b[8].0 == "deviceType"@);
        assert(b[9].0 == "idfa"@);
        assert(b[10].0 == "sdkVersion"@);
        assert(b[11].0 == "t"@);
        assert(b[12].0 == "imei"@);
        assert(b[13].0 == "versionCode"@);
        assert(b[2].0.len() != "appId"@.len());
        assert(b[3].0.len() != "appId"@.len());
        assert(b[4].0.len() != "appId"@.len());
        assert(b[5].0.len() != "appId"@.len());
        assert(b[6].0.len() != "appId"@.len());
        assert(b[7].0.len() != "appId"@.len());
        assert(b[8].0.len() != "appId"@.len());
        assert(b[9].0.len() != "appId"@.len());
        assert(b[10].0.len() != "appId"@.len());
        assert(b[11].0.len() != "appId"@.len());
        assert(b[12].0.len() != "appId"@.len());
        assert(b[13].0.len() != "appId"@.len());
        lemma_last_value_at(b, "appId"@, 1);
        assert(b[3].0.len() != "bid"@.len());
        assert(b[4].0.len() != "bid"@.len());
        assert(b[5].0.len() != "bid"@.len());
        assert(b[6].0.len() != "bid"@.len());
        assert(b[7].0.len() != "bid"@.len());
        assert(b[8].0.len() != "bid"@.len());
        assert(b[9].0.len() != "bid"@.len());
        assert(b[10].0.len() != "bid"@.len());
        assert(b[11].0.len() != "bid"@.len());
        assert(b[12].0.len() != "bid"@.len());
        assert(b[13].0.len() != "bid"@.len());
        lemma_last_value_at(b, "bid"@, 2);
        assert(b[4].0.len() != "channelId"@.len());
        assert(b[5].0.len() != "channelId"@.len());
        assert(b[6].0.len() != "channelId"@.len());
        assert(b[7].0[0] != "channelId"@[0]);
        assert(b[8].0.len() != "channelId"@.len());
        assert(b[9].0.len() != "channelId"@.len());
        assert(b[10].0.len() != "channelId"@.len());
        assert(b[11].0.len() != "channelId"@.len());
        assert(b[12].0.len() != "channelId"@.len());
        assert(b[13].0.len() != "channelId"@.len());
        lemma_last_value_at(b, "channelId"@, 3);
        assert(b[5].0.len() != "deviceId"@.len());
        assert(b[6].0.len() != "deviceId"@.len());
        assert(b[7].0.len() != "deviceId"@.len());
        assert(b[8].0.len() != "deviceId"@.len());
        assert(b[9].0.len() != "deviceId"@.len());
        assert(b[10].0.len() != "deviceId"@.len());
        assert(b[11].0.len() != "deviceId"@.len());
        assert(b[12].0.len() != "deviceId"@.len());
        assert(b[13].0.len() != "deviceId"@.len());
        lemma_last_value_at(b, "deviceId"@, 4);
        assert(b[6].0.len() != "deviceModel"@.len());
        assert(b[7].0.len() != "deviceModel"@.len());
        assert(b[8].0.len() != "deviceModel"@.len());
        assert(b[9].0.len() != "deviceModel"@.len());
        assert(b[10].0.len() != "deviceModel"@.len());
        assert(b[11].0.len() != "deviceModel"@.len());
        assert(b[12].0.len() != "deviceModel"@.len());
        assert(b[13].0[0] != "deviceModel"@[0]);
        lemma_last_value_at(b, "deviceModel"@, 5);
        assert(b[7].0.len() != "deviceName"@.len());
        assert(b[8].0[6] != "deviceName"@[6]);
        assert(b[9].0.len() != "deviceName"@.len());
        assert(b[10].0[0] != "deviceName"@[0]);
        assert(b[11].0.len() != "deviceName"@.len());
        assert(b[12].0.len() != "deviceName"@.len());
        assert(b[13].0.len() != "deviceName"@.len());
        lemma_last_value_at(b, "deviceName"@, 6);
        assert(b[8].0.len() != "deviceSys"@.len());
        assert(b[9].0.len() != "deviceSys"@.len());
        assert(b[10].0.len() != "deviceSys"@.len());
        assert(b[11].0.len() != "deviceSys"@.len());
        assert(b[12].0.len() != "deviceSys"@.len());
        assert(b[13].0.len() != "deviceSys"@.len());
        lemma_last_value_at(b, "deviceSys"@, 7);
        assert(b[9].0.len() != "deviceType"@.len());
        assert(b[10].0[0] != "deviceType"@[0]);
        assert(b[11].0.len() != "deviceType"@.len());
        assert(b[12].0.len() != "deviceType"@.len());
        assert(b[13].0.len() != "deviceType"@.len());
        lemma_last_value_at(b, "deviceType"@, 8);
        assert(b[11].0.len() != "sdkVersion"@.len());
        assert(b[12].0.len() != "sdkVersion"@.len());
        assert(b[13].0.len() != "sdkVersion"@.len());
        lemma_last_value_at(b, "sdkVersion"@, 10);
        assert(b[12].0.len() != "t"@.len());
        assert(b[13].0.len() != "t"@.len());
        lemma_last_value_at(b, "t"@, 11);
        lemma_last_value_at(b, "versionCode"@, 13);
    } else {
        assert(b[0].0 == "adm"@);
        assert(b[1].0 == "appId"@);
        assert(b[2].0 == "bid"@);
        assert(b[3].0 == "channelId"@);
        assert(b[4].0 == "deviceId"@);
        assert(b[5].0 == "deviceModel"@);
        assert(b[6].0 == "deviceName"@);
        assert(b[7].0 == "deviceSys"@);
        assert(b[8].0 == "deviceType"@);
        assert(b[9].0 == "idfa"@);
        assert(b[10].0 == "sdkVersion"@);
        assert(b[11].0 == "t"@);
        assert(b[12].0 == "mac"@);
        assert(b[13].0 == "version"@);
        assert(b[2].0.len() != "appId"@.len());
        assert(b[3].0.len() != "appId"@.len());
        assert(b[4].0.len() != "appId"@.len());
        assert(b[5].0.len() != "appId"@.len());
        assert(b[6].0.len() != "appId"@.len());
        assert(b[7].0.len() != "appId"@.len());
        assert(b[8].0.len() != "appId"@.len());
        assert(b[9].0.len() != "appId"@.len());
        assert(b[10].0.len() != "appId"@.len());
        assert(b[11].0.len() != "appId"@.len());
        assert(b[12].0.len() != "appId"@.len());
        assert(b[13].0.len() != "appId"@.len());
        lemma_last_value_at(b, "appId"@, 1);
        assert(b[3].0.len() != "bid"@.len());
        assert(b[4].0.len() != "bid"@.len());
        assert(b[5].0.len() != "bid"@.len());
        assert(b[6].0.len() != "bid"@.len());
        assert(b[7].0.len() != "bid"@.len());
        assert(b[8].0.len() != "bid"@.len());
        assert(b[9].0.len() != "bid"@.len());
        assert(b[10].0.len() != "bid"@.len());
        assert(b[11].0.len() != "bid"@.len());
        assert(b[12].0[0] != "bid"@[0]);
        assert(b[13].0.len() != "bid"@.len());
        lemma_last_value_at(b, "bid"@, 2);
        assert(b[4].0.len() != "channelId"@.len());
        assert(b[5].0.len() != "channelId"@.len());
        assert(b[6].0.len() != "channelId"@.len());
        assert(b[7].0[0] != "channelId"@[0]);
        assert(b[8].0.len() != "channelId"@.len());
        assert(b[9].0.len() != "channelId"@.len());
        assert(b[10].0.len() != "channelId"@.len());
        assert(b[11].0.len() != "channelId"@.len());
        assert(b[12].0.len() != "channelId"@.len());
        assert(b[13].0.len() != "channelId"@.len());
        lemma_last_value_at(b, "channelId"@, 3);
        assert(b[5].0.len() != "deviceId"@.len());
        assert(b[6].0.len() != "deviceId"@.len());
        assert(b[7].0.len() != "deviceId"@.len());
        assert(b[8].0.len() != "deviceId"@.len());
        assert(b[9].0.len() != "deviceId"@.len());
        assert(b[10].0.len() != "deviceId"@.len());
        assert(b[11].0.len() != "deviceId"@.len());
        assert(b[12].0.len() != "deviceId"@.len());
        assert(b[13].0.len() != "deviceId"@.len());
        lemma_last_value_at(b, "deviceId"@, 4);
        assert(b[6].0.len() != "deviceModel"@.len());
        assert(b[7].0.len() != "deviceModel"@.len());
        assert(b[8].0.len() != "deviceModel"@.len());
        assert(b[9].0.len() != "deviceModel"@.len());
        assert(b[10].0.len() != "deviceModel"@.len());
        assert(b[11].0.len() != "deviceModel"@.len());
        assert(b[12].0.len() != "deviceModel"@.len());
        assert(b[13].0.len() != "deviceModel"@.len());
        lemma_last_value_at(b, "deviceModel"@, 5);
        assert(b[7].0.len() != "deviceName"@.len());
        assert(b[8].0[6] != "deviceName"@[6]);
        assert(b[9].0.len() != "deviceName"@.len());
        assert(b[10].0[0] != "deviceName"@[0]);
        assert(b[11].0.len() != "deviceName"@.len());
        assert(b[12].0.len() != "deviceName"@.len());
        assert(b[13].0.len() != "deviceName"@.len());
        lemma_last_value_at(b, "deviceName"@, 6);
        assert(b[8].0.len() != "deviceSys"@.len());
        assert(b[9].0.len() != "deviceSys"@.len());
        assert(b[10].0.len() != "deviceSys"@.len());
        assert(b[11].0.len() != "deviceSys"@.len());
        assert(b[12].0.len() != "deviceSys"@.len());
        assert(b[13].0.len() != "deviceSys"@.len());
        lemma_last_value_at(b, "deviceSys"@, 7);
        assert(b[9].0.len() != "deviceType"@.len());
        assert(b[10].0[0] != "deviceType"@[0]);
        assert(b[11].0.len() != "deviceType"@.len());
        assert(b[12].0.len() != "deviceType"@.len());
        assert(b[13].0.len() != "deviceType"@.len());
        lemma_last_value_at(b, "deviceType"@, 8);
        assert(b[11].0.len() != "sdkVersion"@.len());
        assert(b[12].0.len() != "sdkVersion"@.len());
        assert(b[13].0.len() != "sdkVersion"@.len());
        lemma_last_value_at(b, "sdkVersion"@, 10);
        assert(b[12].0.len() != "t"@.len());
        assert(b[13].0.len() != "t"@.len());
        lemma_last_value_at(b, "t"@, 11);
        lemma_last_value_at(b, "version"@, 13);
    }
}

/// The last pair with key `k` is the one at `j` when no later pair has
/// that key.
proof fn lemma_last_value_at(s: Seq<(Seq<char>, Seq<char>)>, k: Seq<char>, j: int)
    requires
        0 <= j < s.len(),
        s[j].0 == k,
        forall|i: int| j < i < s.len() ==> s[i].0 != k,
    ensures
        last_value(s, k) == Some(s[j].1),
    decreases s.len(),
{
    if j < s.len() - 1 {
        assert(s.last() == s[s.len() - 1]);
        lemma_last_value_at(s.drop_last(), k, j);
    }
}

/// The base parameters of the Android login API.
pub fn laohu_base_params(p: &LaohuProfile, device_id: &str, t: &str, version_field: &str) -> (m: ParamMap)
    ensures
        m.wf(),
        forall|k: Seq<char>, v: Seq<char>|
            has_entry(m.pairs(), k, v) <==> last_value(
                laohu_base_spec(*p, device_id@, t@, version_field@),
                k,
            ) == Some(v),        has_entry(m.pairs(), "appId"@, p.app_id@),
        has_entry(m.pairs(), "channelId"@, p.channel_id@),
        has_entry(m.pairs(), "deviceId"@, device_id@),
        has_entry(m.pairs(), "deviceModel"@, p.device_model@),
        has_entry(m.pairs(), "deviceName"@, p.device_model@),
        has_entry(m.pairs(), "deviceType"@, p.device_model@),
        has_entry(m.pairs(), "deviceSys"@, p.device_sys@),
        has_entry(m.pairs(), "sdkVersion"@, p.sdk_version@),
        has_entry(m.pairs(), "t"@, t@),
        has_entry(m.pairs(), "bid"@, "com.pwrd.htassistant"@),
        version_field@ == "versionCode"@ ==> has_entry(m.pairs(), "versionCode"@, p.version_code@),
        version_field@ != "versionCode"@ ==> has_entry(m.pairs(), "version"@, p.version_code@),
{
    proof {
        lemma_laohu_base_fields(*p, device_id@, t@, version_field@);
    }

    if crate::text::str_eq(version_field, "versionCode") {
        let pairs: [(&str, &str); 14] = [
            ("adm", ""),
            ("appId", p.app_id.as_str()),
            ("bid", "com.pwrd.htassistant"),
            ("channelId", p.channel_id.as_str()),
            ("deviceId", device_id),
            ("deviceModel", p.device_model.as_str()),
            ("deviceName", p.device_model.as_str()),
            ("deviceSys", p.device_sys.as_str()),
            ("deviceType", p.device_model.as_str()),
            ("idfa", ""),
            ("sdkVersion", p.sdk_version.as_str()),
            ("t", t),
            ("imei", ""),
            ("versionCode", p.version_code.as_str()),
        ];
        assert(str_pair_views(pairs@) =~= laohu_base_spec(*p, device_id@, t@, version_field@));
        ParamMap::from_pairs(&pairs)
    } else {
        let pairs: [(&str, &str); 14] = [
            ("adm", ""),
            ("appId", p.app_id.as_str()),
            ("bid", "com.pwrd.htassistant"),
            ("channelId", p.channel_id.as_str()),
            ("deviceId", device_id),
            ("deviceModel", p.device_model.as_str()),
            ("deviceName", p.device_model.as_str()),
            ("deviceSys", p.device_sys.as_str()),
            ("deviceType", p.device_model.as_str()),
            ("idfa", ""),
            ("sdkVersion", p.sdk_version.as_str()),
            ("t", t),
            ("mac", ""),
            ("version", p.version_code.as_str()),
        ];
        assert(str_pair_views(pairs@) =~= laohu_base_spec(*p, device_id@, t@, version_field@));
        ParamMap::from_pairs(&pairs)
    }
}

/// The current Unix time in seconds.
pub fn now_seconds() -> u64 {
    unix_seconds()
}

/// The current Unix time in milliseconds.
pub fn now_millis() -> u64 {
    unix_millis()
}

/// `s` with every byte XORed with `b`.
pub open spec fn xor_all(s: Seq<u8>, b: u8) -> Seq<u8> {
    Seq::new(s.len(), |i: int| s[i] ^ b)
}

/// The HMAC-SHA256 key block: the key (hashed first when longer than the
/// 64-byte block) padded with zeros to 64 bytes.
pub open spec fn hmac_key_block(key: Seq<u8>) -> Seq<u8> {
    let k = if key.len() > 64 {
        sha256_spec(key)
    } else {
        key
    };
    k + Seq::new((64 - k.len()) as nat, |i: int| 0u8)
}

/// HMAC-SHA256 (RFC 2104).
pub open spec fn hmac_spec(key: Seq<u8>, msg: Seq<u8>) -> Seq<u8> {
    let kb = hmac_key_block(key);
    sha256_spec(xor_all(kb, 0x5c) + sha256_spec(xor_all(kb, 0x36) + msg))
}

/// HKDF-Expand block `T(i)` (RFC 5869): `T(0)` is empty, `T(i)` is the HMAC
/// of `T(i-1) || info || i`.
pub open spec fn hkdf_block(prk: Seq<u8>, info: Seq<u8>, i: nat) -> Seq<u8>
    decreases i,
{
    if i == 0 {
        Seq::empty()
    } else {
        hmac_spec(prk, hkdf_block(prk, info, (i - 1) as nat) + info + seq![i as u8])
    }
}

/// `T(1) || ... || T(n)`.
pub open spec fn hkdf_stream(prk: Seq<u8>, info: Seq<u8>, n: nat) -> Seq<u8>
    decreases n,
{
    if n == 0 {
        Seq::empty()
    } else {
        hkdf_stream(prk, info, (n - 1) as nat) + hkdf_block(prk, info, n)
    }
}

/// HKDF-SHA256 with salt, input key material and info, `len` output bytes:
/// extract with HMAC(salt, ikm), then expand.
pub open spec fn hkdf_spec(ikm: Seq<u8>, salt: Seq<u8>, info: Seq<u8>, len: nat) -> Seq<u8> {
    let prk = hmac_spec(salt, ikm);
    hkdf_stream(prk, info, (len + 31) / 32).take(len as int)
}

fn xor_bytes(s: &Vec<u8>, b: u8) -> (r: Vec<u8>)
    ensures
        r@ == xor_all(s@, b),
{
    let mut r: Vec<u8> = Vec::new();
    let mut i: usize = 0;
    while i < s.len()
        invariant
            i <= s@.len(),
            r@ == xor_all(s@.take(i as int), b),
        decreases s.len() - i,
    {
        r.push(s[i] ^ b);
        proof {
            assert(xor_all(s@.take(i + 1), b) =~= xor_all(s@.take(i as int), b).push(s@[i as int] ^ b));
        }
        i = i + 1;
    }
    assert(s@.take(s@.len() as int) =~= s@);
    r
}

/// HMAC-SHA256 of `msg` under `key`.
pub fn hmac_sha256(key: &[u8], msg: &[u8]) -> (mac: Vec<u8>)
    ensures
        mac@ == hmac_spec(key@, msg@),
        mac@.len() == 32,
{
    let mut kb: Vec<u8> = if key.len() > 64 {
        sha256(key)
    } else {
        let mut v: Vec<u8> = Vec::new();
        push_bytes(&mut v, key);
        v
    };
    let ghost k0 = kb@;
    while kb.len() < 64
        invariant
            k0.len() <= 64,
            kb@.len() <= 64,
            kb@ == k0 + Seq::new((kb@.len() - k0.len()) as nat, |i: int| 0u8),
        decreases 64 - kb@.len(),
    {
        kb.push(0u8);
        proof {
            assert(kb@ =~= k0 + Seq::new((kb@.len() - k0.len()) as nat, |i: int| 0u8));
        }
    }
    assert(kb@ =~= hmac_key_block(key@));
    let mut inner = xor_bytes(&kb, 0x36);
    push_bytes(&mut inner, msg);
    let ih = sha256(inner.as_slice());
    let mut outer = xor_bytes(&kb, 0x5c);
    push_bytes(&mut outer, ih.as_slice());
    sha256(outer.as_slice())
}

/// HKDF-SHA256: `len` bytes from `ikm` with `salt` and `info`. RFC 5869
/// limits the output to 255 blocks.
pub fn hkdf_sha256(ikm: &[u8], salt: &[u8], info: &[u8], len: usize) -> (okm: Vec<u8>)
    requires
        len <= 255 * 32,
    ensures
        okm@ == hkdf_spec(ikm@, salt@, info@, len as nat),
        okm@.len() == len,
{
    let prk = hmac_sha256(salt, ikm);
    let blocks: usize = (len + 31) / 32;
    let mut out: Vec<u8> = Vec::new();
    let mut t: Vec<u8> = Vec::new();
    let mut i: usize = 1;
    while i <= blocks
        invariant
            blocks <= 255,
            1 <= i <= blocks + 1,
            out@ == hkdf_stream(prk@, info@, (i - 1) as nat),
            out@.len() == 32 * (i - 1),
            t@ == hkdf_block(prk@, info@, (i - 1) as nat),
        decreases blocks + 1 - i,
    {
        let mut m: Vec<u8> = Vec::new();
        push_bytes(&mut m, t.as_slice());
        push_bytes(&mut m, info);
        m.push(i as u8);
        let ghost prev = t@;
        t = hmac_sha256(prk.as_slice(), m.as_slice());
        proof {
            assert(m@ =~= prev + info@ + seq![(i as nat) as u8]);
            assert(hkdf_block(prk@, info@, i as nat) == hmac_spec(
                prk@,
                hkdf_block(prk@, info@, (i - 1) as nat) + info@ + seq![(i as nat) as u8],
            ));
            assert(t@ == hkdf_block(prk@, info@, i as nat));
        }
        let ghost before = out@;
        push_bytes(&mut out, t.as_slice());
        proof {
            assert(hkdf_stream(prk@, info@, i as nat) == hkdf_stream(prk@, info@, (i - 1) as nat)
                + hkdf_block(prk@, info@, i as nat));
        }
        i = i + 1;
    }
    assert(out@.len() >= len);
    sub_bytes(out.as_slice(), 0, len)
}

/// The X25519 shared secret, where the exchange is contributory: an
/// all-zero shared point (from a low-order peer key) is refused.
pub open spec fn x25519_shared(secret: Seq<u8>, peer: Seq<u8>) -> Option<Seq<u8>> {
    let b = x25519_shared_spec(secret, peer);
    if forall|i: int| 0 <= i < b.len() ==> b[i] == 0u8 {
        None
    } else {
        Some(b)
    }
}

/// X25519 key agreement: the 32-byte shared secret, `None` for a
/// non-contributory exchange (all-zero result).
pub fn x25519_diffie_hellman(secret: &[u8; 32], peer: &[u8; 32]) -> (r: Option<Vec<u8>>)
    ensures
        match r {
            Some(s) => x25519_shared(secret@, peer@) == Some(s@) && s@.len() == 32,
            None => x25519_shared(secret@, peer@) is None,
        },
        (forall|i: int| 0 <= i < 32 ==> peer@[i] == 0u8) ==> r is None,
{
    let shared = x25519_shared_bytes(secret, peer);
    let mut i: usize = 0;
    let mut zero = true;
    while i < shared.len()
        invariant
            i <= shared@.len(),
            zero == forall|k: int| 0 <= k < i ==> shared@[k] == 0u8,
        decreases shared@.len() - i,
    {
        if shared[i] != 0u8 {
            zero = false;
        }
        i = i + 1;
    }
    if zero {
        None
    } else {
        Some(shared)
    }
}

} // verus!
