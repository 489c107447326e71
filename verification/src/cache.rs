//! The response cache of the protocol proxy: non-streaming responses keyed
//! by a hash of the request body, each kept for `CACHE_TTL_MS` and at most
//! `CACHE_MAX_SIZE` at a time, the oldest inserted going first when full.
//!
//! Times are milliseconds on a monotonic clock that the caller reads; a
//! cached response is kept as the serialized JSON body that is sent back.

use vstd::prelude::*;
use crate::json::{self, Json};
use crate::text;
use crate::usage::TokenUsage;

verus! {

/// Most entries the cache holds.
pub const CACHE_MAX_SIZE: usize = 2048;

/// How long an entry stays valid, in milliseconds (one hour).
pub const CACHE_TTL_MS: u64 = 3_600_000;

/// How often expired entries are swept, in seconds.
pub const CACHE_CLEAN_INTERVAL_SECS: u64 = 120;

/// One cached response.
#[derive(Debug)]
pub struct CacheEntry {
    pub response: Vec<u8>,
    pub usage: TokenUsage,
    pub expires_at: u64,
    pub inserted_at: u64,
}

/// Hit and miss counts and the cache's size.
#[derive(Debug, Clone, Copy)]
pub struct CacheMetrics {
    pub hits: u64,
    pub misses: u64,
    pub size: usize,
    pub max_size: usize,
}

/// The proxy's response cache.
#[derive(Debug)]
pub struct ProxyCache {
    entries: Vec<(String, CacheEntry)>,
    hits: u64,
    misses: u64,
}

pub open spec fn unique_keys(e: Seq<(String, CacheEntry)>) -> bool {
    forall|i: int, j: int| 0 <= i < e.len() && 0 <= j < e.len() && i != j
        ==> #[trigger] e[i].0@ != #[trigger] e[j].0@
}

pub open spec fn has_key(e: Seq<(String, CacheEntry)>, k: Seq<char>) -> bool {
    exists|i: int| 0 <= i < e.len() && #[trigger] e[i].0@ == k
}

/// The entry stored under `k`, if any.
pub open spec fn entry_for(e: Seq<(String, CacheEntry)>, k: Seq<char>) -> Option<CacheEntry> {
    if has_key(e, k) {
        Some(e[choose|i: int| 0 <= i < e.len() && #[trigger] e[i].0@ == k].1)
    } else {
        None
    }
}

/// Whether `k` holds an entry that has not expired at `now`.
pub open spec fn live(e: Seq<(String, CacheEntry)>, k: Seq<char>, now: u64) -> bool {
    entry_for(e, k) matches Some(x) && x.expires_at > now
}

/// The number of entries not expired at `now`.
pub open spec fn live_count(e: Seq<(String, CacheEntry)>, now: u64) -> nat
    decreases e.len(),
{
    if e.len() == 0 {
        0
    } else {
        live_count(e.drop_last(), now) + if e.last().1.expires_at > now { 1nat } else { 0nat }
    }
}

pub open spec fn wrap_inc(x: u64) -> u64 {
    if x == u64::MAX { 0 } else { (x + 1) as u64 }
}

/// The name of `std::hash::DefaultHasher`'s hash of a string (a fresh hasher,
/// the string hashed into it, then `finish`).
pub uninterp spec fn default_hash_of_str(s: Seq<char>) -> u64;

/// Hashes a string with a fresh `std::hash::DefaultHasher`. The standard
/// library promises that every hasher made by `DefaultHasher::new` gives the
/// same result for the same input; what that result is is named, not described.
#[verifier::external_body]
fn default_hash(s: &str) -> (h: u64)
    ensures
        h == default_hash_of_str(s@),
{
    std::hash::BuildHasher::hash_one(&std::hash::BuildHasherDefault::<std::hash::DefaultHasher>::default(), s)
}

/// Whether a character is a digit or a letter from `a` to `f`.
pub open spec fn is_lower_hex(c: char) -> bool {
    ('0' <= c && c <= '9') || ('a' <= c && c <= 'f')
}

/// Sixteen to the power `k`.
pub open spec fn pow16(k: nat) -> nat
    decreases k,
{
    if k == 0 {
        1
    } else {
        16 * pow16((k - 1) as nat)
    }
}

proof fn lemma_hexadecimal_form(n: nat, k: nat)
    requires
        k >= 1,
        n < pow16(k),
    ensures
        1 <= text::hexadecimal(n).len() <= k,
        forall|i: int| 0 <= i < text::hexadecimal(n).len() ==> is_lower_hex(#[trigger] text::hexadecimal(n)[i]),
    decreases k,
{
    if n >= 16 {
        assert(k >= 2) by {
            if k == 1 {
                assert(pow16(1) == 16) by {
                    assert(pow16(0) == 1);
                }
            }
        }
        assert(n / 16 < pow16((k - 1) as nat)) by (nonlinear_arith)
            requires
                n < pow16(k),
                pow16(k) == 16 * pow16((k - 1) as nat),
        ;
        lemma_hexadecimal_form(n / 16, (k - 1) as nat);
        let d = (n % 16) as int;
        assert(is_lower_hex(text::hex_char(d)));
    } else {
        assert(is_lower_hex(text::hex_char(n as int)));
    }
}

/// A cache key is a function of the request body's text alone, written in
/// lowercase hexadecimal: one to sixteen characters, each a digit or a letter
/// from `a` to `f`.
pub proof fn lemma_cache_key_form(body: Seq<char>)
    ensures
        1 <= text::hexadecimal(default_hash_of_str(body) as nat).len() <= 16,
        forall|i: int|
            0 <= i < text::hexadecimal(default_hash_of_str(body) as nat).len() ==> is_lower_hex(
                #[trigger] text::hexadecimal(default_hash_of_str(body) as nat)[i],
            ),
{
    assert(pow16(16) == 0x1_0000_0000_0000_0000) by {
        reveal_with_fuel(pow16, 17);
    }
    lemma_hexadecimal_form(default_hash_of_str(body) as nat, 16);
}

proof fn lemma_entry_at(e: Seq<(String, CacheEntry)>, i: int)
    requires
        unique_keys(e),
        0 <= i < e.len(),
    ensures
        has_key(e, e[i].0@),
        entry_for(e, e[i].0@) == Some(e[i].1),
{
    assert(has_key(e, e[i].0@));
    let j = choose|j: int| 0 <= j < e.len() && #[trigger] e[j].0@ == e[i].0@;
    if j != i {
        assert(e[j].0@ != e[i].0@);
    }
}

fn copy_bytes(v: &Vec<u8>) -> (r: Vec<u8>)
    ensures
        r@ == v@,
{
    let mut r: Vec<u8> = Vec::new();
    let mut i: usize = 0;
    while i < v.len()
        invariant
            i <= v@.len(),
            r@ == v@.take(i as int),
        decreases v.len() - i,
    {
        r.push(v[i]);
        i = i + 1;
        assert(r@ =~= v@.take(i as int));
    }
    assert(v@.take(v@.len() as int) =~= v@);
    r
}

impl ProxyCache {
    pub closed spec fn wf(&self) -> bool {
        &&& unique_keys(self.entries@)
        &&& self.entries@.len() <= CACHE_MAX_SIZE
    }

    /// The cache never holds more than `CACHE_MAX_SIZE` entries.
    pub proof fn lemma_size_bounded(&self)
        requires
            self.wf(),
        ensures
            self.entries_view().len() <= CACHE_MAX_SIZE,
    {
    }

    pub closed spec fn entries_view(&self) -> Seq<(String, CacheEntry)> {
        self.entries@
    }

    pub closed spec fn hits_view(&self) -> u64 {
        self.hits
    }

    pub closed spec fn misses_view(&self) -> u64 {
        self.misses
    }

    /// An empty cache with zero hits and misses.
    pub fn new() -> (c: ProxyCache)
        ensures
            c.wf(),
            c.entries_view().len() == 0,
            c.hits_view() == 0,
            c.misses_view() == 0,
    {
        ProxyCache { entries: Vec::new(), hits: 0, misses: 0 }
    }

    /// The cache key of a request body: the lowercase hexadecimal form of its
    /// `DefaultHasher` hash.
    pub fn cache_key(request_body: &str) -> (k: String)
        ensures
            k@ == text::hexadecimal(default_hash_of_str(request_body@) as nat),
    {
        let h = default_hash(request_body);
        let v = text::hex_chars(h);
        text::string_from_chars(v.as_slice())
    }

    fn find(&self, key: &String) -> (r: Option<usize>)
        requires
            unique_keys(self.entries@),
        ensures
            r matches Some(i) ==> i < self.entries@.len() && self.entries@[i as int].0@ == key@
                && entry_for(self.entries@, key@) == Some(self.entries@[i as int].1),
            r is None ==> !has_key(self.entries@, key@) && entry_for(self.entries@, key@) is None,
    {
        let mut i: usize = 0;
        while i < self.entries.len()
            invariant
                i <= self.entries@.len(),
                unique_keys(self.entries@),
                forall|j: int| 0 <= j < i ==> self.entries@[j].0@ != key@,
            decreases self.entries.len() - i,
        {
            if self.entries[i].0 == *key {
                proof {
                    lemma_entry_at(self.entries@, i as int);
                }
                return Some(i);
            }
            i = i + 1;
        }
        None
    }

    /// Looks `key` up at time `now`: the response and usage of an entry that
    /// has not expired (counted as a hit), or `None` (counted as a miss).
    /// The counters wrap around.
    pub fn get(&mut self, key: &String, now: u64) -> (r: Option<(Vec<u8>, TokenUsage)>)
        requires
            old(self).wf(),
        ensures
            final(self).wf(),
            final(self).entries_view() == old(self).entries_view(),
            live(old(self).entries_view(), key@, now) ==> (r matches Some(hit) && {
                let e = entry_for(old(self).entries_view(), key@)->0;
                &&& hit.0@ == e.response@
                &&& hit.1.prompt_tokens == e.usage.prompt_tokens
                &&& hit.1.completion_tokens == e.usage.completion_tokens
                &&& hit.1.reasoning_tokens == e.usage.reasoning_tokens
                &&& hit.1.cached_tokens == e.usage.cached_tokens
                &&& hit.1.total_tokens == e.usage.total_tokens
                &&& hit.1.model@ == e.usage.model@
                &&& final(self).hits_view() == wrap_inc(old(self).hits_view())
                &&& final(self).misses_view() == old(self).misses_view()
            }),
            !live(old(self).entries_view(), key@, now) ==> r is None
                && final(self).misses_view() == wrap_inc(old(self).misses_view())
                && final(self).hits_view() == old(self).hits_view(),
    {
        match self.find(key) {
            Some(i) => {
                if self.entries[i].1.expires_at > now {
                    self.hits = if self.hits == u64::MAX { 0 } else { self.hits + 1 };
                    let resp = copy_bytes(&self.entries[i].1.response);
                    let usage = self.entries[i].1.usage.duplicate();
                    return Some((resp, usage));
                }
            },
            None => {},
        }
        self.misses = if self.misses == u64::MAX { 0 } else { self.misses + 1 };
        None
    }

    /// The hit and miss counts, the number of entries and `CACHE_MAX_SIZE`.
    pub fn metrics(&self) -> (m: CacheMetrics)
        ensures
            m.hits == self.hits_view(),
            m.misses == self.misses_view(),
            m.size == self.entries_view().len(),
            m.max_size == CACHE_MAX_SIZE,
    {
        CacheMetrics { hits: self.hits, misses: self.misses, size: self.entries.len(), max_size: CACHE_MAX_SIZE }
    }

    /// Drops every entry that has expired at `now`; returns the number of
    /// entries before and after.
    pub fn remove_expired(&mut self, now: u64) -> (r: (usize, usize))
        requires
            old(self).wf(),
        ensures
            final(self).wf(),
            r.0 == old(self).entries_view().len(),
            r.1 == final(self).entries_view().len(),
            r.1 == live_count(old(self).entries_view(), now),
            forall|k: Seq<char>| #[trigger] entry_for(final(self).entries_view(), k)
                == if live(old(self).entries_view(), k, now) { entry_for(old(self).entries_view(), k) } else { None },
            final(self).hits_view() == old(self).hits_view(),
            final(self).misses_view() == old(self).misses_view(),
    {
        let before = self.entries.len();
        let mut all: Vec<(String, CacheEntry)> = Vec::new();
        std::mem::swap(&mut all, &mut self.entries);
        let ghost old_e = all@;
        let kept = retain_live(all, now);
        proof {
            lemma_live_entries(old_e, now);
        }
        self.entries = kept;
        (before, self.entries.len())
    }

    /// Stores a response under `key` at time `now`, valid for `CACHE_TTL_MS`.
    ///
    /// Expired entries are dropped first; then, while the cache holds
    /// `CACHE_MAX_SIZE` entries or more, the entry inserted earliest goes;
    /// then the new entry is added, replacing any entry under the same key.
    pub fn insert(&mut self, key: String, response: Vec<u8>, usage: TokenUsage, now: u64)
        requires
            old(self).wf(),
            now + CACHE_TTL_MS <= u64::MAX,
        ensures
            final(self).wf(),
            final(self).hits_view() == old(self).hits_view(),
            final(self).misses_view() == old(self).misses_view(),
            entry_for(final(self).entries_view(), key@) == Some(CacheEntry {
                response,
                usage,
                expires_at: (now + CACHE_TTL_MS) as u64,
                inserted_at: now,
            }),
            // every other entry is an unexpired entry that was there before
            forall|k: Seq<char>| k != key@ && has_key(final(self).entries_view(), k) ==> #[trigger] live(
                old(self).entries_view(),
                k,
                now,
            ) && entry_for(final(self).entries_view(), k) == entry_for(old(self).entries_view(), k),
            // with room to spare, no unexpired entry is dropped
            live_count(old(self).entries_view(), now) < CACHE_MAX_SIZE ==> forall|k: Seq<char>|
                #[trigger] live(old(self).entries_view(), k, now) ==> has_key(final(self).entries_view(), k),
            // an unexpired entry that was dropped is no newer than any entry that stayed
            forall|k1: Seq<char>, k2: Seq<char>|
                k1 != key@ && k2 != key@ && #[trigger] live(old(self).entries_view(), k1, now)
                    && !has_key(final(self).entries_view(), k1) && #[trigger] has_key(final(self).entries_view(), k2)
                    ==> entry_for(old(self).entries_view(), k1)->0.inserted_at
                    <= entry_for(old(self).entries_view(), k2)->0.inserted_at,
            final(self).entries_view().len() >= if live_count(old(self).entries_view(), now) < CACHE_MAX_SIZE {
                live_count(old(self).entries_view(), now)
            } else {
                (CACHE_MAX_SIZE - 1) as nat
            },
    {
        let ghost old_e = self.entries@;
        let entry = CacheEntry { response, usage, expires_at: now + CACHE_TTL_MS, inserted_at: now };
        let mut all: Vec<(String, CacheEntry)> = Vec::new();
        std::mem::swap(&mut all, &mut self.entries);
        let mut cur = retain_live(all, now);
        let ghost kept = cur@;
        proof {
            lemma_live_entries(old_e, now);
        }
        let ghost mut removed: nat = 0;
        while cur.len() >= CACHE_MAX_SIZE
            invariant
                unique_keys(cur@),
                cur@.len() + removed == kept.len(),
                removed == 0 ==> cur@ == kept,
                removed > 0 ==> cur@.len() >= CACHE_MAX_SIZE - 1,
                kept.len() == live_count(old_e, now),
                kept == live_entries(old_e, now),
                unique_keys(kept),
                forall|k: Seq<char>| #[trigger] entry_for(kept, k)
                    == if live(old_e, k, now) { entry_for(old_e, k) } else { None },
                forall|k: Seq<char>| has_key(cur@, k) ==> #[trigger] has_key(kept, k) && entry_for(cur@, k) == entry_for(kept, k),
                forall|k1: Seq<char>, k2: Seq<char>|
                    #[trigger] has_key(kept, k1) && !has_key(cur@, k1) && #[trigger] has_key(cur@, k2)
                    ==> entry_for(kept, k1)->0.inserted_at <= entry_for(cur@, k2)->0.inserted_at,
            decreases cur.len(),
        {
            let ghost prev = cur@;
            let oldest = oldest_index(&cur);
            let ghost gone = cur@[oldest as int];
            cur.remove(oldest);
            proof {
                removed = removed + 1;
                lemma_remove_entry(prev, oldest as int);
                assert forall|k: Seq<char>| has_key(cur@, k) implies #[trigger] has_key(kept, k) && entry_for(cur@, k) == entry_for(kept, k) by {
                    assert(has_key(prev, k));
                }
                assert forall|k1: Seq<char>, k2: Seq<char>|
                    #[trigger] has_key(kept, k1) && !has_key(cur@, k1) && #[trigger] has_key(cur@, k2)
                    implies entry_for(kept, k1)->0.inserted_at <= entry_for(cur@, k2)->0.inserted_at by {
                    assert(has_key(prev, k2));
                    if has_key(prev, k1) {
                        assert(k1 == gone.0@);
                        lemma_entry_at(prev, oldest as int);
                    }
                }
            }
        }
        let ghost evicted = cur@;
        let ghost k = key@;
        let ghost v = entry;
        match find_in(&cur, &key) {
            Some(i) => {
                cur.set(i, (key, entry));
                assert(cur@ == evicted.update(i as int, (cur@[i as int].0, v)));
            },
            None => {
                cur.push((key, entry));
                assert(cur@.drop_last() == evicted);
            },
        }
        proof {
            lemma_upsert_entry(evicted, cur@, k, v);
            lemma_live_entries(old_e, now);
            let fin = cur@;
            assert forall|k1: Seq<char>| k1 != k && has_key(fin, k1) implies #[trigger] live(old_e, k1, now)
                && entry_for(fin, k1) == entry_for(old_e, k1) by {
                assert(has_key(evicted, k1));
                assert(has_key(kept, k1));
            }
            assert forall|k1: Seq<char>, k2: Seq<char>|
                k1 != k && k2 != k && #[trigger] live(old_e, k1, now) && !has_key(fin, k1)
                    && #[trigger] has_key(fin, k2)
                implies entry_for(old_e, k1)->0.inserted_at <= entry_for(old_e, k2)->0.inserted_at by {
                assert(has_key(kept, k1));
                assert(!has_key(evicted, k1));
                assert(has_key(evicted, k2));
                assert(has_key(kept, k2));
            }
        }
        self.entries = cur;
    }
}

/// Whether a request may be answered from the cache: unless its `stream`
/// member is `true` (streaming responses are never cached).
pub fn is_cacheable(request_body: &Json) -> (b: bool)
    ensures
        b == !(json::json_get(*request_body, "stream"@) matches Some(v) && json::json_as_bool(v) == Some(true)),
{
    let v = text::chars_of("stream");
    let key = text::string_from_chars(v.as_slice());
    match request_body.get(&key) {
        Some(s) => match s.as_bool() {
            Some(true) => false,
            _ => true,
        },
        None => true,
    }
}

/// The index of an entry whose `inserted_at` is smallest (the first such).
fn oldest_index(e: &Vec<(String, CacheEntry)>) -> (r: usize)
    requires
        e@.len() > 0,
    ensures
        r < e@.len(),
        forall|j: int| 0 <= j < e@.len() ==> e@[r as int].1.inserted_at <= #[trigger] e@[j].1.inserted_at,
{
    let mut best: usize = 0;
    let mut i: usize = 1;
    while i < e.len()
        invariant
            best < i <= e@.len(),
            forall|j: int| 0 <= j < i ==> e@[best as int].1.inserted_at <= #[trigger] e@[j].1.inserted_at,
        decreases e.len() - i,
    {
        if e[i].1.inserted_at < e[best].1.inserted_at {
            best = i;
        }
        i = i + 1;
    }
    best
}

fn find_in(e: &Vec<(String, CacheEntry)>, key: &String) -> (r: Option<usize>)
    ensures
        r matches Some(i) ==> i < e@.len() && e@[i as int].0@ == key@,
        r is None ==> !has_key(e@, key@),
{
    let mut i: usize = 0;
    while i < e.len()
        invariant
            i <= e@.len(),
            forall|j: int| 0 <= j < i ==> e@[j].0@ != key@,
        decreases e.len() - i,
    {
        if e[i].0 == *key {
            return Some(i);
        }
        i = i + 1;
    }
    None
}

/// The entries of `s` that have not expired at `now`, in order.
pub open spec fn live_entries(s: Seq<(String, CacheEntry)>, now: u64) -> Seq<(String, CacheEntry)>
    decreases s.len(),
{
    if s.len() == 0 {
        Seq::empty()
    } else {
        let init = live_entries(s.drop_last(), now);
        if s.last().1.expires_at > now { init.push(s.last()) } else { init }
    }
}

proof fn lemma_entry_for_push(s: Seq<(String, CacheEntry)>, x: (String, CacheEntry), k: Seq<char>)
    requires
        unique_keys(s),
        !has_key(s, x.0@),
    ensures
        unique_keys(s.push(x)),
        has_key(s.push(x), k) == (has_key(s, k) || k == x.0@),
        entry_for(s.push(x), k) == if k == x.0@ { Some(x.1) } else { entry_for(s, k) },
{
    let t = s.push(x);
    assert forall|a: int, b: int| 0 <= a < t.len() && 0 <= b < t.len() && a != b
        implies #[trigger] t[a].0@ != #[trigger] t[b].0@ by {
        if a == s.len() {
            assert(s[b].0@ != x.0@);
        } else if b == s.len() {
            assert(s[a].0@ != x.0@);
        } else {
            assert(s[a].0@ != s[b].0@);
        }
    }
    if has_key(s, k) {
        let a = choose|a: int| 0 <= a < s.len() && #[trigger] s[a].0@ == k;
        assert(t[a] == s[a]);
        lemma_entry_at(s, a);
        lemma_entry_at(t, a);
    }
    if k == x.0@ {
        lemma_entry_at(t, s.len() as int);
    }
    if has_key(t, k) && k != x.0@ {
        let a = choose|a: int| 0 <= a < t.len() && #[trigger] t[a].0@ == k;
        assert(a != s.len());
        assert(s[a].0@ == k);
    }
}

/// Filtering out expired entries keeps keys unique, and keeps exactly the
/// unexpired entries with their values.
proof fn lemma_live_entries(s: Seq<(String, CacheEntry)>, now: u64)
    requires
        unique_keys(s),
    ensures
        unique_keys(live_entries(s, now)),
        live_entries(s, now).len() == live_count(s, now),
        live_count(s, now) <= s.len(),
        forall|k: Seq<char>| #[trigger] has_key(live_entries(s, now), k) == live(s, k, now),
        forall|k: Seq<char>| #[trigger] entry_for(live_entries(s, now), k)
            == if live(s, k, now) { entry_for(s, k) } else { None },
    decreases s.len(),
{
    if s.len() > 0 {
        let init = s.drop_last();
        let x = s.last();
        assert(unique_keys(init)) by {
            assert forall|a: int, b: int| 0 <= a < init.len() && 0 <= b < init.len() && a != b
                implies #[trigger] init[a].0@ != #[trigger] init[b].0@ by {
                assert(s[a].0@ != s[b].0@);
            }
        }
        lemma_live_entries(init, now);
        assert(s == init.push(x));
        assert(!has_key(init, x.0@)) by {
            if has_key(init, x.0@) {
                let a = choose|a: int| 0 <= a < init.len() && #[trigger] init[a].0@ == x.0@;
                assert(s[a].0@ != s[s.len() - 1].0@);
            }
        }
        let li = live_entries(init, now);
        assert(!has_key(li, x.0@));
        assert forall|k: Seq<char>| #[trigger] has_key(s, k) == (has_key(init, k) || k == x.0@)
            && entry_for(s, k) == (if k == x.0@ { Some(x.1) } else { entry_for(init, k) }) by {
            lemma_entry_for_push(init, x, k);
        }
        if x.1.expires_at > now {
            assert forall|k: Seq<char>| #[trigger] has_key(live_entries(s, now), k) == live(s, k, now)
                && entry_for(live_entries(s, now), k) == (if live(s, k, now) { entry_for(s, k) } else { None }) by {
                lemma_entry_for_push(li, x, k);
            }
            lemma_entry_for_push(li, x, x.0@);
        } else {
            assert forall|k: Seq<char>| #[trigger] has_key(live_entries(s, now), k) == live(s, k, now)
                && entry_for(live_entries(s, now), k) == (if live(s, k, now) { entry_for(s, k) } else { None }) by {
            }
        }
    }
}

/// The entries of `all` that have not expired at `now`, in order.
fn retain_live(all: Vec<(String, CacheEntry)>, now: u64) -> (kept: Vec<(String, CacheEntry)>)
    ensures
        kept@ == live_entries(all@, now),
{
    let ghost src = all@;
    let mut all = all;
    let mut rev: Vec<(String, CacheEntry)> = Vec::new();
    // Take entries off the end, keeping the live ones (in reverse order).
    while all.len() > 0
        invariant
            live_entries(src, now) == live_entries(all@, now) + rev@.reverse(),
        decreases all.len(),
    {
        let ghost before = all@;
        let x = all.pop().unwrap();
        proof {
            assert(before.drop_last() =~= all@);
            assert(before.last() == x);
        }
        if x.1.expires_at > now {
            let ghost r0 = rev@;
            rev.push(x);
            assert(rev@.reverse() =~= seq![x] + r0.reverse());
        }
        assert(live_entries(src, now) =~= live_entries(all@, now) + rev@.reverse());
    }
    assert(live_entries(all@, now) =~= Seq::<(String, CacheEntry)>::empty());
    let mut kept: Vec<(String, CacheEntry)> = Vec::new();
    while rev.len() > 0
        invariant
            live_entries(src, now) == kept@ + rev@.reverse(),
        decreases rev.len(),
    {
        let ghost r0 = rev@;
        let x = rev.pop().unwrap();
        assert(r0.reverse() =~= seq![x] + rev@.reverse());
        kept.push(x);
        assert(live_entries(src, now) =~= kept@ + rev@.reverse());
    }
    assert(live_entries(src, now) =~= kept@);
    kept
}

proof fn lemma_live_count_le(e: Seq<(String, CacheEntry)>, now: u64)
    ensures
        live_count(e, now) <= e.len(),
    decreases e.len(),
{
    if e.len() > 0 {
        lemma_live_count_le(e.drop_last(), now);
    }
}

proof fn lemma_remove_entry(prev: Seq<(String, CacheEntry)>, i: int)
    requires
        unique_keys(prev),
        0 <= i < prev.len(),
    ensures
        unique_keys(prev.remove(i)),
        forall|k: Seq<char>| #[trigger] has_key(prev.remove(i), k) == (has_key(prev, k) && k != prev[i].0@),
        forall|k: Seq<char>| has_key(prev.remove(i), k) ==> #[trigger] entry_for(prev.remove(i), k) == entry_for(prev, k),
{
    let cur = prev.remove(i);
    assert forall|a: int, b: int| 0 <= a < cur.len() && 0 <= b < cur.len() && a != b
        implies #[trigger] cur[a].0@ != #[trigger] cur[b].0@ by {
        let a2 = if a < i { a } else { a + 1 };
        let b2 = if b < i { b } else { b + 1 };
        assert(cur[a] == prev[a2] && cur[b] == prev[b2]);
    }
    assert forall|k: Seq<char>| #[trigger] has_key(cur, k) == (has_key(prev, k) && k != prev[i].0@) by {
        if has_key(cur, k) {
            let a = choose|a: int| 0 <= a < cur.len() && #[trigger] cur[a].0@ == k;
            let a2 = if a < i { a } else { a + 1 };
            assert(cur[a] == prev[a2]);
            assert(prev[a2].0@ == k);
            if k == prev[i].0@ {
                assert(prev[a2].0@ != prev[i].0@);
            }
        }
        if has_key(prev, k) && k != prev[i].0@ {
            let a = choose|a: int| 0 <= a < prev.len() && #[trigger] prev[a].0@ == k;
            assert(a != i);
            let a2 = if a < i { a } else { a - 1 };
            assert(cur[a2] == prev[a]);
            assert(cur[a2].0@ == k);
        }
    }
    assert forall|k: Seq<char>| has_key(cur, k) implies #[trigger] entry_for(cur, k) == entry_for(prev, k) by {
        let a = choose|a: int| 0 <= a < cur.len() && #[trigger] cur[a].0@ == k;
        let a2 = if a < i { a } else { a + 1 };
        assert(cur[a] == prev[a2]);
        lemma_entry_at(cur, a);
        lemma_entry_at(prev, a2);
    }
}

/// Writing `(key, v)` into entries with unique keys, over the entry with that
/// key or at the end.
proof fn lemma_upsert_entry(before: Seq<(String, CacheEntry)>, after: Seq<(String, CacheEntry)>, key: Seq<char>, v: CacheEntry)
    requires
        unique_keys(before),
        (exists|i: int| 0 <= i < before.len() && before[i].0@ == key && after == before.update(i, (after[i].0, v))
            && after[i].0@ == key)
        || (!has_key(before, key) && after.len() == before.len() + 1 && after.drop_last() == before
            && after.last().0@ == key && after.last().1 == v),
    ensures
        unique_keys(after),
        entry_for(after, key) == Some(v),
        forall|k: Seq<char>| k != key ==> #[trigger] has_key(after, k) == has_key(before, k),
        forall|k: Seq<char>| k != key ==> #[trigger] entry_for(after, k) == entry_for(before, k),
        after.len() <= before.len() + 1,
        after.len() >= before.len(),
{
    if !has_key(before, key) && after.len() == before.len() + 1 && after.drop_last() == before
        && after.last().0@ == key && after.last().1 == v {
        assert(after == before.push(after.last()));
        assert forall|k: Seq<char>| #[trigger] has_key(after, k) == (has_key(before, k) || k == key)
            && entry_for(after, k) == (if k == key { Some(v) } else { entry_for(before, k) }) by {
            lemma_entry_for_push(before, after.last(), k);
        }
    } else {
        let i = choose|i: int| 0 <= i < before.len() && before[i].0@ == key && after == before.update(i, (after[i].0, v))
            && after[i].0@ == key;
        assert forall|a: int, b: int| 0 <= a < after.len() && 0 <= b < after.len() && a != b
            implies #[trigger] after[a].0@ != #[trigger] after[b].0@ by {
            assert(before[a].0@ != before[b].0@);
        }
        lemma_entry_at(after, i);
        assert forall|k: Seq<char>| k != key implies #[trigger] has_key(after, k) == has_key(before, k)
            && entry_for(after, k) == entry_for(before, k) by {
            if has_key(before, k) {
                let a = choose|a: int| 0 <= a < before.len() && #[trigger] before[a].0@ == k;
                assert(a != i);
                lemma_entry_at(before, a);
                lemma_entry_at(after, a);
            }
            if has_key(after, k) {
                let a = choose|a: int| 0 <= a < after.len() && #[trigger] after[a].0@ == k;
                assert(a != i);
                assert(before[a].0@ == k);
            }
        }
    }
}

/// A response cached at `now` is served by every lookup before
/// `now + CACHE_TTL_MS`, as the entry that was stored.
pub proof fn lemma_cached_response_is_served(
    e: Seq<(String, CacheEntry)>,
    k: Seq<char>,
    stored: CacheEntry,
    now: u64,
    t: u64,
)
    requires
        entry_for(e, k) == Some(stored),
        stored.expires_at == now + CACHE_TTL_MS,
        t < now + CACHE_TTL_MS,
    ensures
        live(e, k, t),
        entry_for(e, k)->0 == stored,
{
}

} // verus!
