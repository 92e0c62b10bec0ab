use vstd::prelude::*;
use vstd::string::StringExecFns;
use crate::message::{
    ascii_lower, header_lookup, header_name_is_valid, header_value_is_valid, response_text, response_header_text,
    to_ascii_lower, valid_header_name, valid_header_value, HttpRequest, HttpResponse,
};
use crate::table::{distinct_keys, entries_map, insert_entry, find_keyed, insert_keyed, keyed_map, keys_distinct, lemma_keyed_map_index, lemma_keyed_map_len, lemma_keyed_remove};
use crate::text::{chars_eq, chars_of};

verus! {

/// A cached response: its header fields (names distinct), its body, when it was stored
/// (nanoseconds on the server's clock), how many seconds it lives, and its `etag` and
/// `last-modified` values.
#[derive(Debug, Clone)]
pub struct CacheEntry {
    pub headers: Vec<(String, String)>,
    pub body: Vec<u8>,
    pub created: u64,
    pub ttl: u64,
    pub etag: Option<String>,
    pub last_modified: Option<String>,
}

/// Caching of responses to `GET` and `HEAD` requests with status 200 or 304, keyed by method and
/// URI, each kept for a time to live; when full, the oldest entry makes room.
#[derive(Debug)]
pub struct CacheModule {
    entries: Vec<(String, CacheEntry)>,
    default_ttl: u64,
    max_size: usize,
}

/// A cache's contents and settings.
pub struct CacheView {
    pub entries: Map<Seq<char>, CacheEntry>,
    pub default_ttl: u64,
    pub max_size: usize,
}

impl View for CacheModule {
    type V = CacheView;

    closed spec fn view(&self) -> CacheView {
        CacheView { entries: keyed_map(self.entries@), default_ttl: self.default_ttl, max_size: self.max_size }
    }
}

/// The settings that configuration may give (absent values as `None`).
pub struct CacheSettings {
    pub default_ttl: Option<u64>,
    pub max_size: Option<u64>,
}

/// Whole seconds from `created` to `now` (nanoseconds), none when `now` is earlier.
pub open spec fn elapsed_secs(created: u64, now: u64) -> int {
    if now >= created { (now - created) / 1_000_000_000 } else { 0 }
}

/// An entry is stale once more whole seconds than its time to live have passed.
pub open spec fn is_expired(e: CacheEntry, now: u64) -> bool {
    elapsed_secs(e.created, now) > e.ttl
}

/// The key of a request: its method, a space, its URI.
pub open spec fn spec_cache_key(method: Seq<char>, uri: Seq<char>) -> Seq<char> {
    method + " "@ + uri
}

/// Requests with method `GET` or `HEAD` are cacheable.
pub open spec fn cacheable_method(method: Seq<char>) -> bool {
    method == "GET"@ || method == "HEAD"@
}

/// Responses with status 200 or 304 are cacheable.
pub open spec fn cacheable_status(status: u16) -> bool {
    status == 200 || status == 304
}

/// A cached response's value of header `n`: the last stored field with a valid name and value
/// whose name, in lower case, is `n`.
pub open spec fn cached_header(h: Seq<(String, String)>, n: Seq<char>) -> Option<Seq<char>>
    decreases h.len(),
{
    if h.len() == 0 {
        None
    } else if valid_header_name(h.last().0@) && valid_header_value(h.last().1@) && ascii_lower(h.last().0@) == n {
        Some(h.last().1@)
    } else {
        cached_header(h.drop_last(), n)
    }
}

/// The header fields of a response that a cache entry keeps: each field whose value is visible
/// text, a later field replacing an earlier one of the same name.
pub open spec fn kept_headers(h: Seq<(String, String)>) -> Map<Seq<char>, Seq<char>>
    decreases h.len(),
{
    if h.len() == 0 {
        Map::empty()
    } else {
        let m = kept_headers(h.drop_last());
        if is_visible_text(h.last().1@) {
            m.insert(h.last().0@, h.last().1@)
        } else {
            m
        }
    }
}

/// Every character is visible ASCII or tab.
pub open spec fn is_visible_text(s: Seq<char>) -> bool {
    forall|i: int| 0 <= i < s.len() ==> crate::message::is_visible_char(#[trigger] s[i])
}

/// The index of the oldest entry: the first whose time of storing is least.
pub open spec fn oldest_index(v: Seq<(String, CacheEntry)>) -> int
    decreases v.len(),
{
    if v.len() <= 1 {
        0
    } else {
        let r = oldest_index(v.drop_last());
        if v.last().1.created < v[r].1.created { v.len() - 1 } else { r }
    }
}

proof fn lemma_oldest_index_range(v: Seq<(String, CacheEntry)>)
    requires
        v.len() > 0,
    ensures
        0 <= oldest_index(v) < v.len(),
        forall|j: int| 0 <= j < v.len() ==> v[oldest_index(v)].1.created <= #[trigger] v[j].1.created,
    decreases v.len(),
{
    if v.len() > 1 {
        lemma_oldest_index_range(v.drop_last());
        let r = oldest_index(v.drop_last());
        assert forall|j: int| 0 <= j < v.len() implies v[oldest_index(v)].1.created <= #[trigger] v[j].1.created by {
            if j < v.len() - 1 {
                assert(v.drop_last()[j] == v[j]);
            }
        }
    }
}

impl CacheModule {
    /// The keys stored are distinct.
    pub closed spec fn well_formed(&self) -> bool {
        keys_distinct(self.entries@)
    }

    /// How many entries are stored.
    pub closed spec fn stored_count(&self) -> nat {
        self.entries@.len()
    }

    /// The key of the entry to evict: the oldest one.
    pub closed spec fn oldest_key(&self) -> Seq<char> {
        self.entries@[oldest_index(self.entries@)].0@
    }

    /// The count of stored entries is the number of keys the cache holds.
    pub proof fn lemma_stored_count(&self)
        requires
            self.well_formed(),
        ensures
            self.stored_count() == self@.entries.len(),
            self@.entries.dom().finite(),
    {
        lemma_keyed_map_len(self.entries@);
    }

    /// The oldest key is stored, and no stored entry is older than it.
    pub proof fn lemma_oldest_key(&self)
        requires
            self.well_formed(),
            self@.entries.len() > 0,
        ensures
            self@.entries.contains_key(self.oldest_key()),
            forall|k: Seq<char>| #[trigger] self@.entries.contains_key(k)
                ==> self@.entries[self.oldest_key()].created <= self@.entries[k].created,
    {
        let v = self.entries@;
        if v.len() == 0 {
            assert(keyed_map(v) =~= Map::empty());
        }
        lemma_oldest_index_range(v);
        let o = oldest_index(v);
        lemma_keyed_map_index(v, o);
        assert forall|k: Seq<char>| #[trigger] self@.entries.contains_key(k)
            implies self@.entries[self.oldest_key()].created <= self@.entries[k].created by {
            let j = choose|j: int| 0 <= j < v.len() && v[j].0@ == k;
            lemma_keyed_map_index(v, j);
        }
    }

    /// An empty cache: entries live 60 seconds, at most 1000 are kept.
    pub fn new() -> (res: CacheModule)
        ensures
            res.well_formed(),
            res@.entries == Map::<Seq<char>, CacheEntry>::empty(),
            res@.default_ttl == 60,
            res@.max_size == 1000,
    {
        let res = CacheModule { entries: Vec::new(), default_ttl: 60, max_size: 1000 };
        assert(keyed_map(res.entries@) =~= Map::<Seq<char>, CacheEntry>::empty());
        res
    }

    /// The module's name.
    pub fn name(&self) -> (res: &'static str)
        ensures
            res@ == "cache"@,
    {
        "cache"
    }

    /// Applies the configured time to live and size.
    pub fn init(&mut self, settings: &CacheSettings)
        ensures
            final(self).well_formed() == old(self).well_formed(),
            final(self)@.entries == old(self)@.entries,
            final(self)@.default_ttl == match settings.default_ttl {
                Some(t) => t,
                None => old(self)@.default_ttl,
            },
            final(self)@.max_size == match settings.max_size {
                Some(s) => s as usize,
                None => old(self)@.max_size,
            },
    {
        if let Some(t) = settings.default_ttl {
            self.default_ttl = t;
        }
        if let Some(s) = settings.max_size {
            self.max_size = #[verifier::truncate] (s as usize);
        }
    }

    /// Whether a request's method is cacheable.
    pub fn is_cacheable_request(&self, req: &HttpRequest) -> (res: bool)
        ensures
            res == cacheable_method(req.method@),
    {
        let m = chars_of(req.method.as_str());
        let get = chars_of("GET");
        let head = chars_of("HEAD");
        chars_eq(&m, &get) || chars_eq(&m, &head)
    }

    /// Whether a response's status is cacheable.
    pub fn is_cacheable_response(&self, res: &HttpResponse) -> (r: bool)
        ensures
            r == cacheable_status(res.status),
    {
        res.status == 200 || res.status == 304
    }

    /// The key of a request.
    pub fn cache_key(&self, req: &HttpRequest) -> (res: String)
        ensures
            res@ == spec_cache_key(req.method@, req.uri@),
    {
        let mut k = req.method.clone();
        k.append(" ");
        k.append(req.uri.as_str());
        k
    }

    /// The cached response for a request at time `now`, if one is stored and not stale: status
    /// 200, the stored body, the stored header fields that are valid (names in lower case).
    pub fn get_cached(&self, req: &HttpRequest, now: u64) -> (res: Option<HttpResponse>)
        requires
            self.well_formed(),
        ensures
            ({
                let key = spec_cache_key(req.method@, req.uri@);
                match res {
                    Some(r) => self@.entries.contains_key(key) && !is_expired(self@.entries[key], now)
                        && r.status == 200 && r.body@ == self@.entries[key].body@
                        && forall|n: Seq<char>| #[trigger] header_lookup(r.headers@, n)
                            == cached_header(self@.entries[key].headers@, n),
                    None => !self@.entries.contains_key(key) || is_expired(self@.entries[key], now),
                }
            }),
    {
        let key = self.cache_key(req);
        let found = find_keyed(&self.entries, &key);
        let i = match found {
            Some(i) => i,
            None => return None,
        };
        proof { lemma_keyed_map_index(self.entries@, i as int); }
        let entry = &self.entries[i].1;
        let elapsed: u64 = if now >= entry.created { (now - entry.created) / 1_000_000_000 } else { 0 };
        if elapsed > entry.ttl {
            return None;
        }
        let mut resp = HttpResponse { status: 200, headers: Vec::new(), raw_headers: Vec::new(), body: entry.body.clone() };
        assert(resp.body@ == entry.body@);
        for j in 0..entry.headers.len()
            invariant
                resp.status == 200,
                resp.body@ == entry.body@,
                forall|n: Seq<char>| #[trigger] header_lookup(resp.headers@, n)
                    == cached_header(entry.headers@.take(j as int), n),
        {
            let ghost before = resp.headers@;
            assert(entry.headers@.take(j + 1).drop_last() == entry.headers@.take(j as int));
            let name = &entry.headers[j].0;
            let value = &entry.headers[j].1;
            if header_name_is_valid(name.as_str()) && header_value_is_valid(value.as_str()) {
                resp.set_header(to_ascii_lower(name.as_str()), value.clone());
            }
            assert forall|n: Seq<char>| #[trigger] header_lookup(resp.headers@, n)
                == cached_header(entry.headers@.take(j + 1), n) by {
                assert(header_lookup(before, n) == cached_header(entry.headers@.take(j as int), n));
            }
        }
        assert(entry.headers@.take(entry.headers@.len() as int) == entry.headers@);
        Some(resp)
    }
}

/// The entries after storing under `key` when the cache holds `count` entries: when it is full
/// and the key is new, the oldest entry goes first.
pub open spec fn entries_before_insert(entries: Map<Seq<char>, CacheEntry>, count: nat, max_size: usize, key: Seq<char>, oldest: Seq<char>) -> Map<Seq<char>, CacheEntry> {
    if count >= max_size && !entries.contains_key(key) && count > 0 {
        entries.remove(oldest)
    } else {
        entries
    }
}

/// Storing under a new key in a full cache first drops exactly one entry, one whose time of
/// storing is least; in a cache that is not full, or under a stored key, nothing is dropped.
pub proof fn full_cache_evicts_the_oldest(c: CacheModule, key: Seq<char>)
    requires
        c.well_formed(),
    ensures
        ({
            let before = entries_before_insert(c@.entries, c.stored_count(), c@.max_size, key, c.oldest_key());
            if c@.entries.len() >= c@.max_size && !c@.entries.contains_key(key) && c@.entries.len() > 0 {
                exists|o: Seq<char>| #![trigger c@.entries.remove(o)]
                    c@.entries.contains_key(o) && before == c@.entries.remove(o)
                    && forall|k: Seq<char>| #[trigger] c@.entries.contains_key(k) ==> c@.entries[o].created <= c@.entries[k].created
            } else {
                before == c@.entries
            }
        }),
{
    c.lemma_stored_count();
    if c@.entries.len() >= c@.max_size && !c@.entries.contains_key(key) && c@.entries.len() > 0 {
        c.lemma_oldest_key();
        let o = c.oldest_key();
        assert(c@.entries.contains_key(o));
        assert(entries_before_insert(c@.entries, c.stored_count(), c@.max_size, key, o) == c@.entries.remove(o));
    } else {
        assert(entries_before_insert(c@.entries, c.stored_count(), c@.max_size, key, c.oldest_key()) == c@.entries);
    }
}

/// The entry stored for a response: its kept header fields, the body, the time, the cache's time
/// to live, and the response's `etag` and `last-modified` texts.
pub open spec fn stored_entry(e: CacheEntry, res_headers: Seq<(String, String)>, body: Seq<u8>, now: u64, ttl: u64) -> bool {
    &&& distinct_keys(e.headers@)
    &&& entries_map(e.headers@) == kept_headers(res_headers)
    &&& e.body@ == body
    &&& e.created == now
    &&& e.ttl == ttl
    &&& crate::message::opt_text(e.etag) == response_header_text(res_headers, "etag"@)
    &&& crate::message::opt_text(e.last_modified) == response_header_text(res_headers, "last-modified"@)
}

/// The entry a lookup at time `now` finds under `key`: the stored one unless it is stale.
pub open spec fn spec_lookup(entries: Map<Seq<char>, CacheEntry>, key: Seq<char>, now: u64) -> Option<CacheEntry> {
    if entries.contains_key(key) && !is_expired(entries[key], now) {
        Some(entries[key])
    } else {
        None
    }
}

fn opt_header_text(headers: &Vec<(String, String)>, name: &str) -> (res: Option<String>)
    ensures
        crate::message::opt_text(res) == response_header_text(headers@, name@),
{
    match response_text(headers, name) {
        Some(v) => Some(crate::text::string_of(&v)),
        None => None,
    }
}

impl CacheModule {
    /// Stores the response to a cacheable request (`GET` or `HEAD`) with a cacheable status (200
    /// or 304) under the request's key at time `now`, replacing an earlier entry of that key; a
    /// full cache first drops its oldest entry. Anything else leaves the cache as it is.
    pub fn cache_response(&mut self, req: &HttpRequest, res: &HttpResponse, body: Vec<u8>, now: u64)
        requires
            old(self).well_formed(),
        ensures
            final(self).well_formed(),
            final(self)@.default_ttl == old(self)@.default_ttl,
            final(self)@.max_size == old(self)@.max_size,
            !(cacheable_method(req.method@) && cacheable_status(res.status)) ==> final(self)@.entries == old(self)@.entries
                && final(self).stored_count() == old(self).stored_count(),
            cacheable_method(req.method@) && cacheable_status(res.status) ==> {
                let key = spec_cache_key(req.method@, req.uri@);
                let before = entries_before_insert(old(self)@.entries, old(self).stored_count(), old(self)@.max_size, key, old(self).oldest_key());
                &&& final(self)@.entries.contains_key(key)
                &&& final(self)@.entries.remove(key) == before.remove(key)
                &&& stored_entry(final(self)@.entries[key], res.headers@, body@, now, old(self)@.default_ttl)
                &&& (old(self).stored_count() <= old(self)@.max_size ==> final(self).stored_count()
                    <= if old(self)@.max_size == 0 { 1 } else { old(self)@.max_size as nat })
            },
    {
        if !(self.is_cacheable_request(req) && self.is_cacheable_response(res)) {
            return;
        }
        let key = self.cache_key(req);
        let mut headers: Vec<(String, String)> = Vec::new();
        assert(entries_map(headers@) =~= Map::<Seq<char>, Seq<char>>::empty());
        for i in 0..res.headers.len()
            invariant
                distinct_keys(headers@),
                entries_map(headers@) == kept_headers(res.headers@.take(i as int)),
        {
            assert(res.headers@.take(i + 1).drop_last() == res.headers@.take(i as int));
            let value_chars = chars_of(res.headers[i].1.as_str());
            if crate::message::visible_text(&value_chars) {
                insert_entry(&mut headers, res.headers[i].0.clone(), res.headers[i].1.clone());
            }
        }
        assert(res.headers@.take(res.headers@.len() as int) == res.headers@);
        let etag = opt_header_text(&res.headers, "etag");
        let last_modified = opt_header_text(&res.headers, "last-modified");
        let entry = CacheEntry { headers, body, created: now, ttl: self.default_ttl, etag, last_modified };
        let ghost old_entries = self.entries@;
        let ghost old_view = self@;
        let ghost oldest = self.oldest_key();
        let present = find_keyed(&self.entries, &key);
        if self.entries.len() >= self.max_size && present.is_none() && self.entries.len() > 0 {
            let mut m: usize = 0;
            for i in 1..self.entries.len()
                invariant
                    self.entries@ == old_entries,
                    old_entries.len() > 0,
                    m < i,
                    m as int == oldest_index(old_entries.take(i as int)),
            {
                assert(old_entries.take(i + 1).drop_last() == old_entries.take(i as int));
                assert(old_entries.take(i + 1)[m as int] == old_entries[m as int]);
                assert(old_entries.take(i + 1).last() == old_entries[i as int]);
                if self.entries[i].1.created < self.entries[m].1.created {
                    m = i;
                }
            }
            assert(old_entries.take(old_entries.len() as int) == old_entries);
            assert(m as int == oldest_index(old_entries));
            proof { lemma_keyed_remove(old_entries, m as int); }
            self.entries.remove(m);
        }
        let ghost mid = self.entries@;
        proof {
            if present is None {
                assert(!keyed_map(old_entries).contains_key(key@));
            } else {
                lemma_keyed_map_index(old_entries, present.unwrap() as int);
            }
        }
        insert_keyed(&mut self.entries, key, entry);
        proof {
            let key_v = spec_cache_key(req.method@, req.uri@);
            assert(keyed_map(mid).remove(key_v) =~= keyed_map(mid).insert(key_v, entry).remove(key_v));
            assert(self@.entries.remove(key_v) =~= keyed_map(mid).remove(key_v));
            assert(keyed_map(mid) == entries_before_insert(old_view.entries, old_entries.len(), old_view.max_size, key_v, oldest));
        }
    }
}

/// The entries, in order, that are not stale at `now` under a time to live of `ttl` seconds.
pub open spec fn fresh_entries(s: Seq<(String, CacheEntry)>, now: u64, ttl: u64) -> Seq<(String, CacheEntry)>
    decreases s.len(),
{
    if s.len() == 0 {
        s
    } else {
        let rest = fresh_entries(s.drop_first(), now, ttl);
        if elapsed_secs(s[0].1.created, now) <= ttl { seq![s[0]] + rest } else { rest }
    }
}

proof fn lemma_fresh_entries(s: Seq<(String, CacheEntry)>, now: u64, ttl: u64)
    requires
        keys_distinct(s),
    ensures
        keys_distinct(fresh_entries(s, now, ttl)),
        forall|k: Seq<char>| #[trigger] keyed_map(fresh_entries(s, now, ttl)).contains_key(k)
            <==> keyed_map(s).contains_key(k) && elapsed_secs(keyed_map(s)[k].created, now) <= ttl,
        forall|k: Seq<char>| #[trigger] keyed_map(fresh_entries(s, now, ttl)).contains_key(k)
            ==> keyed_map(fresh_entries(s, now, ttl))[k] == keyed_map(s)[k],
    decreases s.len(),
{
    if s.len() > 0 {
        let t = s.drop_first();
        assert(keys_distinct(t)) by {
            assert forall|i: int, j: int| 0 <= i < t.len() && 0 <= j < t.len() && i != j implies t[i].0@ != t[j].0@ by {
                assert(t[i] == s[i + 1] && t[j] == s[j + 1]);
            }
        }
        lemma_fresh_entries(t, now, ttl);
        let r = fresh_entries(t, now, ttl);
        let f = fresh_entries(s, now, ttl);
        // every key of r is a key of t, so not the key of s[0]
        assert forall|i: int| 0 <= i < r.len() implies (#[trigger] r[i]).0@ != s[0].0@ by {
            lemma_keyed_map_index(r, i);
            let j = choose|j: int| 0 <= j < t.len() && t[j].0@ == r[i].0@;
            assert(t[j] == s[j + 1]);
        }
        lemma_keyed_map_index(s, 0);
        assert forall|k: Seq<char>| keyed_map(t).contains_key(k) && k != s[0].0@ implies
            keyed_map(s).contains_key(k) && keyed_map(s)[k] == keyed_map(t)[k] by {
            let j = choose|j: int| 0 <= j < t.len() && t[j].0@ == k;
            lemma_keyed_map_index(t, j);
            assert(t[j] == s[j + 1]);
            lemma_keyed_map_index(s, j + 1);
        }
        assert forall|k: Seq<char>| keyed_map(s).contains_key(k) && k != s[0].0@ implies keyed_map(t).contains_key(k) by {
            let j = choose|j: int| 0 <= j < s.len() && s[j].0@ == k;
            assert(j != 0);
            assert(t[j - 1] == s[j]);
        }
        if elapsed_secs(s[0].1.created, now) <= ttl {
            assert(keys_distinct(f)) by {
                assert forall|i: int, j: int| 0 <= i < f.len() && 0 <= j < f.len() && i != j implies f[i].0@ != f[j].0@ by {
                    if i > 0 { assert(f[i] == r[i - 1]); }
                    if j > 0 { assert(f[j] == r[j - 1]); }
                }
            }
            lemma_keyed_map_index(f, 0);
            assert forall|k: Seq<char>| #[trigger] keyed_map(f).contains_key(k)
                <==> keyed_map(s).contains_key(k) && elapsed_secs(keyed_map(s)[k].created, now) <= ttl by {
                if keyed_map(f).contains_key(k) && k != s[0].0@ {
                    let j = choose|j: int| 0 <= j < f.len() && f[j].0@ == k;
                    assert(f[j] == r[j - 1]);
                    assert(keyed_map(r).contains_key(k));
                }
                if keyed_map(s).contains_key(k) && k != s[0].0@ && elapsed_secs(keyed_map(s)[k].created, now) <= ttl {
                    assert(keyed_map(r).contains_key(k));
                    let j = choose|j: int| 0 <= j < r.len() && r[j].0@ == k;
                    assert(f[j + 1] == r[j]);
                }
            }
            assert forall|k: Seq<char>| #[trigger] keyed_map(f).contains_key(k) implies keyed_map(f)[k] == keyed_map(s)[k] by {
                if k != s[0].0@ {
                    let j = choose|j: int| 0 <= j < f.len() && f[j].0@ == k;
                    assert(f[j] == r[j - 1]);
                    lemma_keyed_map_index(f, j);
                    lemma_keyed_map_index(r, j - 1);
                }
            }
        } else {
            assert(f == r);
        }
    }
}

impl CacheModule {
    /// The cached response for a cacheable request, if there is a fresh one; nothing otherwise.
    pub fn pre_process(&self, req: &HttpRequest, now: u64) -> (res: Option<HttpResponse>)
        requires
            self.well_formed(),
        ensures
            !cacheable_method(req.method@) ==> res is None,
            cacheable_method(req.method@) ==> ({
                let key = spec_cache_key(req.method@, req.uri@);
                match res {
                    Some(r) => spec_lookup(self@.entries, key, now) matches Some(e)
                        && r.status == 200 && r.body@ == e.body@
                        && forall|n: Seq<char>| #[trigger] header_lookup(r.headers@, n) == cached_header(e.headers@, n),
                    None => spec_lookup(self@.entries, key, now) is None,
                }
            }),
    {
        if self.is_cacheable_request(req) {
            self.get_cached(req, now)
        } else {
            None
        }
    }

    /// Stores the response to the request, when both are cacheable; the response is unchanged.
    pub fn post_process(&mut self, res: &HttpResponse, req: &HttpRequest, now: u64)
        requires
            old(self).well_formed(),
        ensures
            final(self).well_formed(),
            final(self)@.default_ttl == old(self)@.default_ttl,
            final(self)@.max_size == old(self)@.max_size,
            !(cacheable_method(req.method@) && cacheable_status(res.status)) ==> final(self)@.entries == old(self)@.entries,
            cacheable_method(req.method@) && cacheable_status(res.status) ==> {
                let key = spec_cache_key(req.method@, req.uri@);
                let before = entries_before_insert(old(self)@.entries, old(self).stored_count(), old(self)@.max_size, key, old(self).oldest_key());
                &&& final(self)@.entries.contains_key(key)
                &&& final(self)@.entries.remove(key) == before.remove(key)
                &&& stored_entry(final(self)@.entries[key], res.headers@, res.body@, now, old(self)@.default_ttl)
            },
    {
        if self.is_cacheable_request(req) && self.is_cacheable_response(res) {
            let body = res.body.clone();
            assert(body@ == res.body@);
            self.cache_response(req, res, body, now);
        }
    }

    /// Drops every entry more than `ttl` whole seconds old at `now`; the rest stay as they are.
    pub fn remove_expired(&mut self, now: u64, ttl: u64)
        requires
            old(self).well_formed(),
        ensures
            final(self).well_formed(),
            final(self)@.default_ttl == old(self)@.default_ttl,
            final(self)@.max_size == old(self)@.max_size,
            forall|k: Seq<char>| #[trigger] final(self)@.entries.contains_key(k)
                <==> old(self)@.entries.contains_key(k) && elapsed_secs(old(self)@.entries[k].created, now) <= ttl,
            forall|k: Seq<char>| #[trigger] final(self)@.entries.contains_key(k)
                ==> final(self)@.entries[k] == old(self)@.entries[k],
    {
        let ghost orig = self.entries@;
        let mut rest: Vec<(String, CacheEntry)> = Vec::new();
        std::mem::swap(&mut rest, &mut self.entries);
        assert(rest@.skip(0) == orig);
        let ghost mut done: int = 0;
        while rest.len() > 0
            invariant
                0 <= done <= orig.len(),
                rest@ == orig.skip(done),
                self.default_ttl == old(self).default_ttl,
                self.max_size == old(self).max_size,
                self.entries@ + fresh_entries(rest@, now, ttl) == fresh_entries(orig, now, ttl),
            decreases rest@.len(),
        {
            let ghost before = rest@;
            let item = rest.remove(0);
            proof {
                assert(before.drop_first() == rest@);
                assert(rest@ == orig.skip(done + 1));
                done = done + 1;
            }
            let elapsed: u64 = if now >= item.1.created { (now - item.1.created) / 1_000_000_000 } else { 0 };
            if elapsed <= ttl {
                let ghost e = self.entries@;
                self.entries.push(item);
                assert(self.entries@ + fresh_entries(rest@, now, ttl) =~= e + fresh_entries(before, now, ttl));
            } else {
                assert(fresh_entries(before, now, ttl) == fresh_entries(rest@, now, ttl));
            }
        }
        assert(self.entries@ == fresh_entries(orig, now, ttl)) by {
            assert(fresh_entries(rest@, now, ttl) == Seq::<(String, CacheEntry)>::empty());
            assert(self.entries@ + Seq::<(String, CacheEntry)>::empty() =~= self.entries@);
        }
        proof { lemma_fresh_entries(orig, now, ttl); }
    }
}

/// What a cache stores under a key is what a lookup there finds, until it is stale: after a
/// response is stored at time `t` with time to live `ttl`, a lookup at any `now` at most `ttl`
/// whole seconds later finds that very entry.
pub proof fn stored_response_is_served(entries: Map<Seq<char>, CacheEntry>, key: Seq<char>, e: CacheEntry, t: u64, ttl: u64, now: u64)
    requires
        entries.contains_key(key),
        entries[key] == e,
        e.created == t,
        e.ttl == ttl,
        elapsed_secs(t, now) <= ttl,
    ensures
        spec_lookup(entries, key, now) == Some(e),
{
}

/// A stale entry is never served: once more than its time to live has passed, a lookup finds
/// nothing under its key.
pub proof fn stale_entry_is_not_served(entries: Map<Seq<char>, CacheEntry>, key: Seq<char>, now: u64)
    requires
        entries.contains_key(key),
        elapsed_secs(entries[key].created, now) > entries[key].ttl,
    ensures
        spec_lookup(entries, key, now) is None,
{
}

} // verus!
