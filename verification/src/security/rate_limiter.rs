use vstd::prelude::*;
use crate::message::{header_text, request_header, spec_header_text, text_body, HttpRequest, HttpResponse};
use vstd::utf8::encode_utf8;
use crate::net::IpAddress;
use crate::text::{chars_of, split_char, split_chars, string_of, trim, trim_chars};

verus! {

/// The text that the first entry of an `X-Forwarded-For` header value gives: the part before the
/// first comma, trimmed, when the value is visible ASCII.
pub open spec fn spec_forwarded_for_candidate(headers: Seq<(String, Vec<u8>)>) -> Option<Seq<char>> {
    match request_header(headers, "x-forwarded-for"@) {
        Some(b) => match spec_header_text(b) {
            Some(t) => Some(trim(split_char(t, ',')[0])),
            None => None,
        },
        None => None,
    }
}

/// The text to parse as the forwarded client address, if the request has a usable
/// `X-Forwarded-For` header.
pub fn forwarded_for_candidate(headers: &Vec<(String, Vec<u8>)>) -> (res: Option<String>)
    ensures
        match res {
            Some(s) => spec_forwarded_for_candidate(headers@) == Some(s@),
            None => spec_forwarded_for_candidate(headers@) is None,
        },
{
    let req_headers = crate::message::first_header(headers, "x-forwarded-for");
    if let Some(value) = req_headers {
        if let Some(text) = header_text(value.as_slice()) {
            let chars = chars_of(text.as_str());
            let parts = split_chars(&chars, ',');
            proof { crate::text::lemma_split_char_nonempty(chars@, ','); }
            let first = trim_chars(&parts[0]);
            return Some(string_of(&first));
        }
    }
    None
}

/// The client address of a request: the peer address if known; else the forwarded address;
/// else the attached socket address.
pub open spec fn spec_client_ip(req: HttpRequest) -> Option<IpAddress> {
    if req.peer_ip is Some {
        req.peer_ip
    } else if req.forwarded_ip is Some {
        req.forwarded_ip
    } else {
        req.remote_ip
    }
}

/// The client address of a request.
pub fn get_client_ip(req: &HttpRequest) -> (res: Option<IpAddress>)
    ensures
        res == spec_client_ip(*req),
{
    if req.peer_ip.is_some() {
        req.peer_ip
    } else if req.forwarded_ip.is_some() {
        req.forwarded_ip
    } else {
        req.remote_ip
    }
}


/// What the limiter remembers of one client: requests counted in the current window, when that
/// window started, and when the client was last seen (nanoseconds on the server's monotonic clock).
#[derive(Clone, Copy, Debug, PartialEq, Eq, Structural)]
pub struct RequestTracker {
    pub count: usize,
    pub window_start: u64,
    pub last_seen: u64,
}

/// The response to a client over its limit: 429 `Rate limit exceeded`, `retry-after: 60`.
pub open spec fn is_rate_limited_response(res: HttpResponse) -> bool {
    &&& res.status == 429
    &&& res.body@ == encode_utf8("Rate limit exceeded"@)
    &&& res.headers@.len() == 1
    &&& res.headers@[0].0@ == "retry-after"@
    &&& res.headers@[0].1@ == "60"@
}

/// A per-client request limiter: at most `max_requests` requests per window of `window_secs`
/// seconds. Each client address has at most one tracker.
#[derive(Clone, Debug)]
pub struct RateLimiter {
    max_requests: usize,
    window_secs: u64,
    requests: Vec<(IpAddress, RequestTracker)>,
}

/// The state of a limiter: its limit, its window in seconds, and the tracker of each client.
pub struct RateLimiterView {
    pub max_requests: nat,
    pub window_secs: nat,
    pub trackers: Map<IpAddress, RequestTracker>,
}

/// Number of tracked clients above which stale trackers are dropped.
pub const CLEANUP_THRESHOLD: usize = 1000;

/// Nanoseconds in a second.
pub open spec fn nanos_per_sec() -> int {
    1_000_000_000
}

/// The window of a tracker has run out at `now`: more than the window length has passed since it
/// started (no time passes when `now` lies before the start).
pub open spec fn window_expired(t: RequestTracker, now: u64, window_secs: nat) -> bool {
    now > t.window_start && now - t.window_start > window_secs * nanos_per_sec()
}

/// The tracker of a client after one more request at `now`: a new client starts a window at
/// `now`; an expired window restarts at `now` with a zero count; then the count goes up by one
/// (it stays at `usize::MAX` once there) and the client is seen at `now`.
pub open spec fn next_tracker(t: Option<RequestTracker>, now: u64, window_secs: nat) -> RequestTracker {
    let t0 = match t {
        Some(t) => t,
        None => RequestTracker { count: 0, window_start: now, last_seen: now },
    };
    let t1 = if window_expired(t0, now, window_secs) {
        RequestTracker { count: 0, window_start: now, ..t0 }
    } else {
        t0
    };
    RequestTracker {
        count: if t1.count < usize::MAX { (t1.count + 1) as usize } else { t1.count },
        window_start: t1.window_start,
        last_seen: now,
    }
}

/// A tracker survives a cleanup at `now` when its client was seen within three windows.
pub open spec fn tracker_is_fresh(t: RequestTracker, now: u64, window_secs: nat) -> bool {
    t.last_seen + 3 * window_secs * nanos_per_sec() >= now
}

/// The trackers that survive a cleanup at `now`.
pub open spec fn fresh_trackers(m: Map<IpAddress, RequestTracker>, now: u64, window_secs: nat) -> Map<IpAddress, RequestTracker> {
    m.restrict(m.dom().filter(|ip: IpAddress| tracker_is_fresh(m[ip], now, window_secs)))
}

/// The trackers of a sequence of entries with distinct addresses.
pub open spec fn trackers_of(v: Seq<(IpAddress, RequestTracker)>) -> Map<IpAddress, RequestTracker> {
    Map::new(
        |ip: IpAddress| exists|i: int| 0 <= i < v.len() && v[i].0 == ip,
        |ip: IpAddress| v[choose|i: int| 0 <= i < v.len() && v[i].0 == ip].1,
    )
}

/// No address appears twice.
pub open spec fn distinct_addresses(v: Seq<(IpAddress, RequestTracker)>) -> bool {
    forall|i: int, j: int| 0 <= i < v.len() && 0 <= j < v.len() && i != j ==> v[i].0 != v[j].0
}

proof fn lemma_trackers_of_index(v: Seq<(IpAddress, RequestTracker)>, i: int)
    requires
        distinct_addresses(v),
        0 <= i < v.len(),
    ensures
        trackers_of(v).contains_key(v[i].0),
        trackers_of(v)[v[i].0] == v[i].1,
{
    let k = choose|k: int| 0 <= k < v.len() && v[k].0 == v[i].0;
    assert(k == i);
}

fn find_client(v: &Vec<(IpAddress, RequestTracker)>, ip: IpAddress) -> (res: Option<usize>)
    ensures
        match res {
            Some(k) => k < v@.len() && v@[k as int].0 == ip,
            None => forall|j: int| 0 <= j < v@.len() ==> v@[j].0 != ip,
        },
{
    for i in 0..v.len()
        invariant
            forall|j: int| 0 <= j < i ==> v@[j].0 != ip,
    {
        if v[i].0 == ip {
            return Some(i);
        }
    }
    None
}

/// The entries whose clients were seen within three windows, in order.
pub open spec fn fresh_entries(v: Seq<(IpAddress, RequestTracker)>, now: u64, window_secs: nat) -> Seq<(IpAddress, RequestTracker)>
    decreases v.len(),
{
    if v.len() == 0 {
        v
    } else {
        let r = fresh_entries(v.drop_last(), now, window_secs);
        if tracker_is_fresh(v.last().1, now, window_secs) {
            r.push(v.last())
        } else {
            r
        }
    }
}

proof fn lemma_fresh_entries(v: Seq<(IpAddress, RequestTracker)>, now: u64, window_secs: nat)
    ensures
        forall|x: (IpAddress, RequestTracker)| fresh_entries(v, now, window_secs).contains(x)
            <==> (v.contains(x) && tracker_is_fresh(x.1, now, window_secs)),
        distinct_addresses(v) ==> distinct_addresses(fresh_entries(v, now, window_secs)),
    decreases v.len(),
{
    if v.len() > 0 {
        let d = v.drop_last();
        lemma_fresh_entries(d, now, window_secs);
        let r = fresh_entries(d, now, window_secs);
        assert forall|x: (IpAddress, RequestTracker)| fresh_entries(v, now, window_secs).contains(x)
            <==> (v.contains(x) && tracker_is_fresh(x.1, now, window_secs)) by {
            if v.contains(x) {
                let k = choose|k: int| 0 <= k < v.len() && v[k] == x;
                if k < v.len() - 1 {
                    assert(d[k] == x);
                }
            }
            if d.contains(x) {
                let k = choose|k: int| 0 <= k < d.len() && d[k] == x;
                assert(v[k] == x);
            }
            if tracker_is_fresh(v.last().1, now, window_secs) {
                assert(r.push(v.last())[r.len() as int] == v.last());
                if r.contains(x) {
                    let k = choose|k: int| 0 <= k < r.len() && r[k] == x;
                    assert(r.push(v.last())[k] == x);
                }
                if r.push(v.last()).contains(x) {
                    let k = choose|k: int| 0 <= k < r.len() + 1 && r.push(v.last())[k] == x;
                    if k < r.len() {
                        assert(r[k] == x);
                    }
                }
            }
        }
        if distinct_addresses(v) {
            assert(distinct_addresses(d)) by {
                assert forall|i: int, j: int| 0 <= i < d.len() && 0 <= j < d.len() && i != j implies d[i].0 != d[j].0 by {
                    assert(d[i] == v[i] && d[j] == v[j]);
                }
            }
            if tracker_is_fresh(v.last().1, now, window_secs) {
                let n = r.push(v.last());
                assert forall|i: int, j: int| 0 <= i < n.len() && 0 <= j < n.len() && i != j implies n[i].0 != n[j].0 by {
                    if i == r.len() {
                        assert(r.contains(n[j]));
                        assert(d.contains(n[j]));
                        let k = choose|k: int| 0 <= k < d.len() && d[k] == n[j];
                        assert(v[k] == n[j]);
                        assert(v[v.len() - 1] == v.last());
                    } else if j == r.len() {
                        assert(r.contains(n[i]));
                        assert(d.contains(n[i]));
                        let k = choose|k: int| 0 <= k < d.len() && d[k] == n[i];
                        assert(v[k] == n[i]);
                        assert(v[v.len() - 1] == v.last());
                    } else {
                        assert(n[i] == r[i] && n[j] == r[j]);
                    }
                }
            }
        }
    }
}

/// The trackers after a request from `ip` at `now`, and whether it is within the limit: when more
/// than `CLEANUP_THRESHOLD` clients are tracked, stale trackers are dropped first; then the
/// client's tracker takes the request.
pub open spec fn after_request(v: RateLimiterView, client_count: nat, ip: IpAddress, now: u64) -> (Map<IpAddress, RequestTracker>, bool) {
    let before = if client_count > CLEANUP_THRESHOLD {
        fresh_trackers(v.trackers, now, v.window_secs)
    } else {
        v.trackers
    };
    let t = next_tracker(if before.contains_key(ip) { Some(before[ip]) } else { None }, now, v.window_secs);
    (before.insert(ip, t), t.count <= v.max_requests)
}

impl View for RateLimiter {
    type V = RateLimiterView;

    closed spec fn view(&self) -> RateLimiterView {
        RateLimiterView {
            max_requests: self.max_requests as nat,
            window_secs: self.window_secs as nat,
            trackers: trackers_of(self.requests@),
        }
    }
}

impl RateLimiter {
    /// The limiter's own invariant: each client has one tracker.
    pub closed spec fn well_formed(&self) -> bool {
        distinct_addresses(self.requests@)
    }

    /// A limiter that allows `max_requests` per window of `window_seconds`, tracking no client.
    pub fn new(max_requests: usize, window_seconds: u64) -> (res: RateLimiter)
        ensures
            res.well_formed(),
            res@.max_requests == max_requests,
            res@.window_secs == window_seconds,
            res@.trackers == Map::<IpAddress, RequestTracker>::empty(),
    {
        let res = RateLimiter { max_requests, window_secs: window_seconds, requests: Vec::new() };
        assert(res@.trackers =~= Map::<IpAddress, RequestTracker>::empty());
        res
    }

    fn cleanup(&mut self, now: u64)
        requires
            old(self).well_formed(),
        ensures
            final(self).well_formed(),
            final(self)@.max_requests == old(self)@.max_requests,
            final(self)@.window_secs == old(self)@.window_secs,
            final(self)@.trackers == fresh_trackers(old(self)@.trackers, now, old(self)@.window_secs),
    {
        let ghost old_v = self.requests@;
        let mut kept: Vec<(IpAddress, RequestTracker)> = Vec::new();
        let window = self.window_secs;
        for i in 0..self.requests.len()
            invariant
                window == self.window_secs,
                old_v == self.requests@,
                kept@ == fresh_entries(old_v.take(i as int), now, window as nat),
        {
            assert(old_v.take(i + 1).drop_last() == old_v.take(i as int));
            let e = self.requests[i];
            let fresh = (e.1.last_seen as u128) + 3 * (window as u128) * 1_000_000_000u128 >= now as u128;
            if fresh {
                kept.push(e);
            }
        }
        assert(old_v.take(old_v.len() as int) == old_v);
        self.requests = kept;
        proof {
            lemma_fresh_entries(old_v, now, window as nat);
            let fe = fresh_entries(old_v, now, window as nat);
            assert(self.requests@ == fe);
            let m = trackers_of(old_v);
            let f = fresh_trackers(m, now, window as nat);
            let n = trackers_of(self.requests@);
            assert forall|ip: IpAddress| n.contains_key(ip) <==> f.contains_key(ip) by {
                if n.contains_key(ip) {
                    let j = choose|j: int| 0 <= j < self.requests@.len() && self.requests@[j].0 == ip;
                    assert(fe.contains(fe[j]));
                    assert(old_v.contains(fe[j]));
                    let k = choose|k: int| 0 <= k < old_v.len() && old_v[k] == fe[j];
                    lemma_trackers_of_index(old_v, k);
                }
                if f.contains_key(ip) {
                    let k = choose|k: int| 0 <= k < old_v.len() && old_v[k].0 == ip;
                    lemma_trackers_of_index(old_v, k);
                    assert(old_v.contains(old_v[k]));
                    assert(fe.contains(old_v[k]));
                }
            }
            assert forall|ip: IpAddress| n.contains_key(ip) implies n[ip] == f[ip] by {
                let j = choose|j: int| 0 <= j < self.requests@.len() && self.requests@[j].0 == ip;
                lemma_trackers_of_index(self.requests@, j);
                assert(fe.contains(fe[j]));
                assert(old_v.contains(fe[j]));
                let k = choose|k: int| 0 <= k < old_v.len() && old_v[k] == fe[j];
                lemma_trackers_of_index(old_v, k);
            }
            assert(n =~= f);
        }
    }

    /// Counts a request from `ip` at `now` (nanoseconds on the monotonic clock) and tells whether it
    /// is within the limit. When more than 1000 clients are tracked, the trackers of clients not
    /// seen within three windows are dropped first.
    pub fn check_rate_limit(&mut self, ip: IpAddress, now: u64) -> (res: bool)
        requires
            old(self).well_formed(),
        ensures
            final(self).well_formed(),
            final(self)@.max_requests == old(self)@.max_requests,
            final(self)@.window_secs == old(self)@.window_secs,
            (final(self)@.trackers, res) == after_request(old(self)@, old(self).tracked_count(), ip, now),
    {
        if self.requests.len() > CLEANUP_THRESHOLD {
            self.cleanup(now);
        }
        let ghost before = self@.trackers;
        let window = self.window_secs;
        let pos = find_client(&self.requests, ip);
        let found = pos.is_some();
        let idx: usize = match pos {
            Some(k) => k,
            None => self.requests.len(),
        };
        let t0 = if found {
            proof { lemma_trackers_of_index(self.requests@, idx as int); }
            self.requests[idx].1
        } else {
            assert(!before.contains_key(ip));
            RequestTracker { count: 0, window_start: now, last_seen: now }
        };
        let mut t = t0;
        if now > t.window_start && ((now - t.window_start) as u128) > (window as u128) * 1_000_000_000u128 {
            t.window_start = now;
            t.count = 0;
        }
        t.last_seen = now;
        if t.count < usize::MAX {
            t.count = t.count + 1;
        }
        let ghost old_v = self.requests@;
        if found {
            self.requests.set(idx, (ip, t));
        } else {
            self.requests.push((ip, t));
        }
        proof {
            let n = trackers_of(self.requests@);
            assert(distinct_addresses(self.requests@)) by {
                assert forall|i: int, j: int| 0 <= i < self.requests@.len() && 0 <= j < self.requests@.len() && i != j
                    implies self.requests@[i].0 != self.requests@[j].0 by {
                    if !found {
                        if i == old_v.len() {
                            assert(self.requests@[j] == old_v[j]);
                        } else if j == old_v.len() {
                            assert(self.requests@[i] == old_v[i]);
                        } else {
                            assert(self.requests@[i] == old_v[i] && self.requests@[j] == old_v[j]);
                        }
                    } else {
                        if i != idx && j != idx {
                            assert(self.requests@[i] == old_v[i] && self.requests@[j] == old_v[j]);
                        } else if i == idx {
                            assert(self.requests@[j] == old_v[j]);
                        } else {
                            assert(self.requests@[i] == old_v[i]);
                        }
                    }
                }
            }
            let target = before.insert(ip, t);
            assert forall|x: IpAddress| n.contains_key(x) <==> target.contains_key(x) by {
                if n.contains_key(x) && x != ip {
                    let j = choose|j: int| 0 <= j < self.requests@.len() && self.requests@[j].0 == x;
                    assert(self.requests@[j] == old_v[j]);
                    lemma_trackers_of_index(old_v, j);
                }
                if x == ip {
                    if found {
                        assert(self.requests@[idx as int].0 == ip);
                    } else {
                        assert(self.requests@[old_v.len() as int].0 == ip);
                    }
                }
                if before.contains_key(x) && x != ip {
                    let j = choose|j: int| 0 <= j < old_v.len() && old_v[j].0 == x;
                    assert(self.requests@[j] == old_v[j]);
                }
            }
            assert forall|x: IpAddress| n.contains_key(x) implies n[x] == target[x] by {
                let j = choose|j: int| 0 <= j < self.requests@.len() && self.requests@[j].0 == x;
                lemma_trackers_of_index(self.requests@, j);
                if x != ip {
                    assert(self.requests@[j] == old_v[j]);
                    lemma_trackers_of_index(old_v, j);
                }
            }
            assert(n =~= target);
        }
        t.count <= self.max_requests
    }

    /// Number of clients tracked.
    pub closed spec fn tracked_count(&self) -> nat {
        self.requests@.len()
    }

    /// The count of tracked clients is the number of clients the limiter holds trackers for.
    pub proof fn lemma_tracked_count(&self)
        requires
            self.well_formed(),
        ensures
            self@.trackers.dom().finite(),
            self.tracked_count() == self@.trackers.len(),
    {
        let v = self.requests@;
        let ks = v.map_values(|p: (IpAddress, RequestTracker)| p.0);
        assert(ks.no_duplicates());
        ks.unique_seq_to_set();
        assert forall|k: IpAddress| trackers_of(v).dom().contains(k) <==> #[trigger] ks.to_set().contains(k) by {
            if trackers_of(v).dom().contains(k) {
                let i = choose|i: int| 0 <= i < v.len() && v[i].0 == k;
                assert(ks[i] == k);
            }
            if ks.to_set().contains(k) {
                let i = choose|i: int| 0 <= i < ks.len() && ks[i] == k;
                assert(v[i].0 == k);
            }
        }
        assert(trackers_of(v).dom() =~= ks.to_set());
    }

    /// The response to a client over its limit: 429 `Rate limit exceeded`, `retry-after: 60`.
    pub fn rate_limited_response() -> (res: HttpResponse)
        ensures
            is_rate_limited_response(res),
    {
        let mut headers: Vec<(String, String)> = Vec::new();
        headers.push(("retry-after".to_owned(), "60".to_owned()));
        HttpResponse { status: 429, headers, raw_headers: Vec::new(), body: text_body("Rate limit exceeded") }
    }

    /// The client address of a request.
    pub fn get_client_ip(req: &HttpRequest) -> (res: Option<IpAddress>)
        ensures
            res == spec_client_ip(*req),
    {
        get_client_ip(req)
    }
}

/// Checks a request against the limiter, if one is set up: without a limiter, or without a
/// client address, nothing is counted and the request passes; otherwise the client's request is
/// counted, and when it is over the limit the 429 response comes back.
pub fn check_rate_limit(limiter: &mut Option<RateLimiter>, req: &HttpRequest, now: u64) -> (res: Option<HttpResponse>)
    requires
        match *old(limiter) {
            Some(l) => l.well_formed(),
            None => true,
        },
    ensures
        match *old(limiter) {
            None => res is None && *final(limiter) is None,
            Some(l0) => match spec_client_ip(*req) {
                None => res is None && *final(limiter) == Some(l0),
                Some(ip) => {
                    let (trackers, allowed) = after_request(l0@, l0.tracked_count(), ip, now);
                    &&& *final(limiter) matches Some(l1)
                    &&& l1.well_formed()
                    &&& l1@.trackers == trackers
                    &&& l1@.max_requests == l0@.max_requests
                    &&& l1@.window_secs == l0@.window_secs
                    &&& (res is None <==> allowed)
                    &&& (res matches Some(r) ==> is_rate_limited_response(r))
                },
            },
        },
{
    match limiter {
        Some(l) => match get_client_ip(req) {
            Some(ip) => {
                if !l.check_rate_limit(ip, now) {
                    Some(RateLimiter::rate_limited_response())
                } else {
                    None
                }
            },
            None => None,
        },
        None => None,
    }
}

/// The first request of a client (or the first after its window ran out) is allowed exactly when
/// the limit is at least one.
pub proof fn fresh_window_allows_first_request(t: Option<RequestTracker>, now: u64, window_secs: nat, max: nat)
    requires
        t is None || window_expired(t.unwrap(), now, window_secs),
    ensures
        next_tracker(t, now, window_secs).count == 1,
        (next_tracker(t, now, window_secs).count <= max) == (max >= 1),
{
}

/// Within one window each request raises the client's count by one (until it saturates).
pub proof fn request_within_window_counts(t: RequestTracker, now: u64, window_secs: nat)
    requires
        !window_expired(t, now, window_secs),
        t.count < usize::MAX,
    ensures
        next_tracker(Some(t), now, window_secs).count == t.count + 1,
        next_tracker(Some(t), now, window_secs).window_start == t.window_start,
{
}

/// Once a client is refused, it stays refused for the rest of its window: a later request whose
/// window has not run out is refused too.
pub proof fn refusal_lasts_until_window_ends(t: RequestTracker, now: u64, later: u64, window_secs: nat, max: nat)
    requires
        next_tracker(Some(t), now, window_secs).count > max,
        !window_expired(next_tracker(Some(t), now, window_secs), later, window_secs),
    ensures
        next_tracker(Some(next_tracker(Some(t), now, window_secs)), later, window_secs).count > max,
{
}

/// The state and the answers after a run of requests, each a client and a time, taken in order
/// (each as `check_rate_limit` takes it, with the number of tracked clients as the count).
pub open spec fn run_requests(v: RateLimiterView, reqs: Seq<(IpAddress, u64)>) -> (RateLimiterView, Seq<bool>)
    decreases reqs.len(),
{
    if reqs.len() == 0 {
        (v, Seq::empty())
    } else {
        let (w, answers) = run_requests(v, reqs.drop_last());
        let (m, ok) = after_request(w, w.trackers.len(), reqs.last().0, reqs.last().1);
        (RateLimiterView { trackers: m, ..w }, answers.push(ok))
    }
}

/// How many requests of a run come from `ip`.
pub open spec fn requests_from(reqs: Seq<(IpAddress, u64)>, ip: IpAddress) -> nat
    decreases reqs.len(),
{
    if reqs.len() == 0 {
        0
    } else {
        requests_from(reqs.drop_last(), ip) + if reqs.last().0 == ip { 1nat } else { 0nat }
    }
}

/// Requests of a client within one window are counted one by one, whatever other clients do in
/// between: in a run of requests that all fall in the window of `window_secs` seconds from
/// `start`, the `j`-th request of a client the limiter did not track before is allowed exactly
/// when `j` is within the limit, so at most the limit of them are allowed.
pub proof fn requests_in_one_window_are_counted(v: RateLimiterView, reqs: Seq<(IpAddress, u64)>, ip: IpAddress, start: u64, k: int)
    requires
        !v.trackers.contains_key(ip),
        forall|i: int| 0 <= i < reqs.len()
            ==> start <= #[trigger] reqs[i].1 && reqs[i].1 - start <= v.window_secs * nanos_per_sec(),
        requests_from(reqs, ip) < usize::MAX,
        0 <= k < reqs.len(),
        reqs[k].0 == ip,
    ensures
        run_requests(v, reqs).1[k] == (requests_from(reqs.take(k + 1), ip) <= v.max_requests),
    decreases reqs.len(),
{
    lemma_run_keeps_client(v, reqs, ip, start);
    if k < reqs.len() - 1 {
        let d = reqs.drop_last();
        assert(d[k] == reqs[k]);
        assert(d.take(k + 1) == reqs.take(k + 1));
        assert forall|i: int| 0 <= i < d.len()
            implies start <= #[trigger] d[i].1 && d[i].1 - start <= v.window_secs * nanos_per_sec() by {
            assert(d[i] == reqs[i]);
        }
        assert(requests_from(d, ip) <= requests_from(reqs, ip));
        requests_in_one_window_are_counted(v, d, ip, start, k);
    } else {
        assert(reqs.take(k + 1) == reqs);
        lemma_run_keeps_client(v, reqs.drop_last(), ip, start);
    }
}

/// Along a run, the client's tracker holds the number of its requests so far, within its window.
proof fn lemma_run_keeps_client(v: RateLimiterView, reqs: Seq<(IpAddress, u64)>, ip: IpAddress, start: u64)
    requires
        !v.trackers.contains_key(ip),
        forall|i: int| 0 <= i < reqs.len()
            ==> start <= #[trigger] reqs[i].1 && reqs[i].1 - start <= v.window_secs * nanos_per_sec(),
        requests_from(reqs, ip) < usize::MAX,
    ensures
        ({
            let (w, answers) = run_requests(v, reqs);
            &&& w.max_requests == v.max_requests
            &&& w.window_secs == v.window_secs
            &&& answers.len() == reqs.len()
            &&& if requests_from(reqs, ip) == 0 {
                !w.trackers.contains_key(ip)
            } else {
                &&& w.trackers.contains_key(ip)
                &&& w.trackers[ip].count == requests_from(reqs, ip)
                &&& start <= w.trackers[ip].window_start
                &&& start <= w.trackers[ip].last_seen
            }
            &&& (reqs.len() > 0 && reqs.last().0 == ip) ==> answers.last() == (requests_from(reqs, ip) <= v.max_requests)
            &&& forall|i: int| 0 <= i < reqs.len() - 1 ==> answers[i] == #[trigger] run_requests(v, reqs.drop_last()).1[i]
        }),
    decreases reqs.len(),
{
    if reqs.len() > 0 {
        let d = reqs.drop_last();
        assert forall|i: int| 0 <= i < d.len()
            implies start <= #[trigger] d[i].1 && d[i].1 - start <= v.window_secs * nanos_per_sec() by {
            assert(d[i] == reqs[i]);
        }
        lemma_run_keeps_client(v, d, ip, start);
        let (w, answers) = run_requests(v, d);
        let c = reqs.last().0;
        let now = reqs.last().1;
        assert(reqs[reqs.len() - 1] == reqs.last());
        assert(start <= now && now - start <= v.window_secs * nanos_per_sec());
        let before = if w.trackers.len() > CLEANUP_THRESHOLD {
            fresh_trackers(w.trackers, now, w.window_secs)
        } else {
            w.trackers
        };
        assert(forall|x: IpAddress| #[trigger] before.contains_key(x) ==> w.trackers.contains_key(x) && before[x] == w.trackers[x]);
        if requests_from(d, ip) > 0 {
            let t = w.trackers[ip];
            assert(tracker_is_fresh(t, now, w.window_secs));
            assert(before.contains_key(ip));
            assert(before[ip] == t);
            assert(!window_expired(t, now, w.window_secs));
        } else {
            assert(!before.contains_key(ip));
        }
        let (m, ok) = after_request(w, w.trackers.len(), c, now);
        assert(run_requests(v, reqs) == (RateLimiterView { trackers: m, ..w }, answers.push(ok)));
    }
}

} // verus!
