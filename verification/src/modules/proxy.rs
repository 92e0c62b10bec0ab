use vstd::prelude::*;
use vstd::utf8::encode_utf8;
use vstd::string::StringExecFns;
use crate::message::{
    ascii_lower, header_lookup, header_name_is_valid, header_text, header_value_is_valid, opt_text, request_header,
    spec_header_text, to_ascii_lower, valid_header_name, valid_header_value, HttpRequest, HttpResponse,
};
use crate::table::{distinct_keys, entries_map, insert_entry, lemma_entries_map_index};
use crate::text::{texts, chars_eq, chars_of, contains_chars, contains_seq, has_prefix, is_prefix, string_of, u64_to_string, decimal};

verus! {

/// What `http::Uri::from_str` makes of a text: the URI's display text, its host and its port,
/// or `None` when the text is no URI.
pub uninterp spec fn uri_parse(text: Seq<char>) -> Option<(Seq<char>, Option<Seq<char>>, Option<u16>)>;

/// Parses `text` with `http::Uri::from_str`, then takes the URI's display, `host()` and
/// `port_u16()`. Claims that the result is the named `uri_parse` of the text.
#[verifier::external_body]
fn parse_uri(text: &str) -> (res: Option<(String, Option<String>, Option<u16>)>)
    ensures
        match res {
            Some((d, h, p)) => uri_parse(text@) == Some((d@, opt_text(h), p)),
            None => uri_parse(text@) is None,
        },
{
    let u: http::Uri = text.parse().ok()?;
    Some((u.to_string(), u.host().map(str::to_string), u.port_u16()))
}

/// The header fields dropped when forwarding (hop-by-hop fields), by default.
pub open spec fn default_remove_headers() -> Seq<Seq<char>> {
    seq![
        "connection"@, "keep-alive"@, "transfer-encoding"@, "te"@, "trailer"@, "proxy-authorization"@,
        "proxy-authenticate"@, "upgrade"@, "expect"@,
    ]
}

/// Reverse proxying: requests whose path starts with a configured prefix are forwarded to that
/// prefix's backend.
#[derive(Debug)]
pub struct ProxyModule {
    backends: Vec<(String, String)>,
    remove_headers: Vec<String>,
    add_headers: Vec<(String, String)>,
    timeout: u64,
    forward_ip: bool,
}

/// A proxy's settings: backends by path prefix, the header names dropped when forwarding, the
/// header fields added, the timeout in seconds, and whether client addresses are forwarded.
pub struct ProxyView {
    pub backends: Map<Seq<char>, Seq<char>>,
    pub remove_headers: Seq<Seq<char>>,
    pub add_headers: Map<Seq<char>, Seq<char>>,
    pub timeout: u64,
    pub forward_ip: bool,
}

impl View for ProxyModule {
    type V = ProxyView;

    closed spec fn view(&self) -> ProxyView {
        ProxyView {
            backends: entries_map(self.backends@),
            remove_headers: texts(self.remove_headers@),
            add_headers: entries_map(self.add_headers@),
            timeout: self.timeout,
            forward_ip: self.forward_ip,
        }
    }
}

/// The settings that configuration may give (absent values as `None`); backends and headers as
/// (name, value) pairs in the configuration's order.
pub struct ProxySettings {
    pub backends: Vec<(String, String)>,
    pub timeout: Option<u64>,
    pub forward_ip: Option<bool>,
    pub headers: Vec<(String, String)>,
}

/// The backend prefix for a path: the longest configured prefix that the path starts with.
pub open spec fn spec_find_backend(backends: Map<Seq<char>, Seq<char>>, path: Seq<char>) -> Option<Seq<char>> {
    if exists|k: Seq<char>| backends.contains_key(k) && is_prefix(k, path) {
        Some(choose|k: Seq<char>| backends.contains_key(k) && is_prefix(k, path)
            && forall|o: Seq<char>| backends.contains_key(o) && is_prefix(o, path) ==> o.len() <= k.len())
    } else {
        None
    }
}

/// The backend prefix found is a configured prefix of the path, and no configured prefix of the
/// path is longer; none is found exactly when no configured prefix starts the path.
pub proof fn lemma_found_backend_is_prefix(backends: Map<Seq<char>, Seq<char>>, path: Seq<char>)
    ensures
        spec_find_backend(backends, path) matches Some(k) ==> backends.contains_key(k) && is_prefix(k, path)
            && forall|o: Seq<char>| #[trigger] backends.contains_key(o) && is_prefix(o, path) ==> o.len() <= k.len(),
        spec_find_backend(backends, path) is None <==> forall|o: Seq<char>| #[trigger] backends.contains_key(o) ==> !is_prefix(o, path),
{
    if exists|k: Seq<char>| backends.contains_key(k) && is_prefix(k, path) {
        let k0 = choose|k: Seq<char>| backends.contains_key(k) && is_prefix(k, path);
        lemma_longest_prefix_exists(backends, path, k0);
    }
}

proof fn lemma_longest_prefix_exists(backends: Map<Seq<char>, Seq<char>>, path: Seq<char>, k0: Seq<char>)
    requires
        backends.contains_key(k0),
        is_prefix(k0, path),
    ensures
        exists|k: Seq<char>| backends.contains_key(k) && is_prefix(k, path)
            && forall|o: Seq<char>| backends.contains_key(o) && is_prefix(o, path) ==> o.len() <= k.len(),
    decreases path.len() - k0.len(),
{
    if !(forall|o: Seq<char>| backends.contains_key(o) && is_prefix(o, path) ==> o.len() <= k0.len()) {
        let o = choose|o: Seq<char>| !(backends.contains_key(o) && is_prefix(o, path) ==> o.len() <= k0.len());
        lemma_longest_prefix_exists(backends, path, o);
    }
}

/// Two prefixes of one text with the same length are the same.
proof fn lemma_prefixes_same_length(a: Seq<char>, b: Seq<char>, path: Seq<char>)
    requires
        is_prefix(a, path),
        is_prefix(b, path),
        a.len() == b.len(),
    ensures
        a == b,
{
    assert(a =~= b);
}

/// The URI text a request goes to: the path without the prefix (unless the prefix is `/`) put
/// after the backend with one slash between them, then the query.
pub open spec fn backend_uri_text(path: Seq<char>, query: Option<Seq<char>>, prefix: Seq<char>, backend: Seq<char>) -> Seq<char> {
    let bp = if prefix == "/"@ { path } else { path.skip(prefix.len() as int) };
    let ends_slash = backend.len() > 0 && backend.last() == '/';
    let bp_slash = bp.len() > 0 && bp[0] == '/';
    let b1 = if !ends_slash && !contains_seq(backend, "?"@) && !bp_slash { backend + "/"@ } else { backend };
    let b1_slash = b1.len() > 0 && b1.last() == '/';
    let b2 = if b1_slash && bp_slash {
        b1 + bp.skip(1)
    } else if !b1_slash && !bp_slash {
        b1 + "/"@ + bp
    } else {
        b1 + bp
    };
    match query {
        Some(q) => b2 + "?"@ + q,
        None => b2,
    }
}

/// The part of a request path that follows the backend's prefix.
pub open spec fn remaining_path(path: Seq<char>, prefix: Seq<char>) -> Seq<char> {
    if prefix == "/"@ { path } else { path.skip(prefix.len() as int) }
}

/// The backend URI starts with the backend URL and has exactly one `/` where the backend URL and
/// the remaining path meet: a backend ending in `/` followed by a path starting with `/` loses the
/// path's first `/`; when neither has one, one is put between them; else they are joined as they
/// are. The request's query follows after `?`.
pub proof fn backend_uri_joins_with_one_slash(path: Seq<char>, query: Option<Seq<char>>, prefix: Seq<char>, backend: Seq<char>)
    ensures
        ({
            let rest = remaining_path(path, prefix);
            let backend_slash = backend.len() > 0 && backend.last() == '/';
            let rest_slash = rest.len() > 0 && rest[0] == '/';
            let joined = if backend_slash && rest_slash {
                backend + rest.subrange(1, rest.len() as int)
            } else if !backend_slash && !rest_slash {
                backend + seq!['/'] + rest
            } else {
                backend + rest
            };
            backend_uri_text(path, query, prefix, backend) == match query {
                Some(q) => joined + seq!['?'] + q,
                None => joined,
            }
        }),
{
    reveal_strlit("/");
    reveal_strlit("?");
    let rest = remaining_path(path, prefix);
    let backend_slash = backend.len() > 0 && backend.last() == '/';
    let rest_slash = rest.len() > 0 && rest[0] == '/';
    let b1 = if !backend_slash && !contains_seq(backend, "?"@) && !rest_slash { backend + "/"@ } else { backend };
    if !backend_slash && !contains_seq(backend, "?"@) && !rest_slash {
        assert((backend + "/"@).last() == '/');
    }
    assert(rest.skip(1) == rest.subrange(1, rest.len() as int));
}

fn ends_with_slash(s: &Vec<char>) -> (res: bool)
    ensures
        res == (s@.len() > 0 && s@.last() == '/'),
{
    s.len() > 0 && s[s.len() - 1] == '/'
}

fn starts_with_slash(s: &Vec<char>) -> (res: bool)
    ensures
        res == (s@.len() > 0 && s@[0] == '/'),
{
    s.len() > 0 && s[0] == '/'
}

impl ProxyModule {
    /// No backends, the default hop-by-hop fields, no added fields, 30 seconds, client addresses
    /// forwarded.
    pub fn new() -> (res: ProxyModule)
        ensures
            res.well_formed(),
            res@ == (ProxyView {
                backends: Map::empty(),
                remove_headers: default_remove_headers(),
                add_headers: Map::empty(),
                timeout: 30,
                forward_ip: true,
            }),
    {
        let mut remove_headers: Vec<String> = Vec::new();
        remove_headers.push("connection".to_owned());
        remove_headers.push("keep-alive".to_owned());
        remove_headers.push("transfer-encoding".to_owned());
        remove_headers.push("te".to_owned());
        remove_headers.push("trailer".to_owned());
        remove_headers.push("proxy-authorization".to_owned());
        remove_headers.push("proxy-authenticate".to_owned());
        remove_headers.push("upgrade".to_owned());
        remove_headers.push("expect".to_owned());
        let res = ProxyModule { backends: Vec::new(), remove_headers, add_headers: Vec::new(), timeout: 30, forward_ip: true };
        assert(res@.remove_headers =~= default_remove_headers());
        assert(entries_map(res.backends@) =~= Map::<Seq<char>, Seq<char>>::empty());
        res
    }

    /// The backend and header tables have distinct keys.
    pub closed spec fn well_formed(&self) -> bool {
        distinct_keys(self.backends@) && distinct_keys(self.add_headers@)
    }

    /// Forwards requests whose path starts with `path_prefix` to `backend_url`.
    pub fn add_backend(&mut self, path_prefix: &str, backend_url: &str)
        requires
            old(self).well_formed(),
        ensures
            final(self).well_formed(),
            final(self)@ == (ProxyView { backends: old(self)@.backends.insert(path_prefix@, backend_url@), ..old(self)@ }),
    {
        insert_entry(&mut self.backends, path_prefix.to_owned(), backend_url.to_owned());
    }

    /// Sets the timeout in seconds.
    pub fn set_timeout(&mut self, timeout: u64)
        ensures
            final(self).well_formed() == old(self).well_formed(),
            final(self)@ == (ProxyView { timeout, ..old(self)@ }),
    {
        self.timeout = timeout;
    }

    /// Turns forwarding of client addresses on or off.
    pub fn set_forward_ip(&mut self, enable: bool)
        ensures
            final(self).well_formed() == old(self).well_formed(),
            final(self)@ == (ProxyView { forward_ip: enable, ..old(self)@ }),
    {
        self.forward_ip = enable;
    }

    /// Adds a header field to forwarded requests.
    pub fn add_header(&mut self, name: &str, value: &str)
        requires
            old(self).well_formed(),
        ensures
            final(self).well_formed(),
            final(self)@ == (ProxyView { add_headers: old(self)@.add_headers.insert(name@, value@), ..old(self)@ }),
    {
        insert_entry(&mut self.add_headers, name.to_owned(), value.to_owned());
    }

    /// The module's name.
    pub fn name(&self) -> (res: &'static str)
        ensures
            res@ == "proxy"@,
    {
        "proxy"
    }

    /// The backend for a path: the longest prefix it starts with, and that prefix's backend.
    #[verifier::spinoff_prover]
    #[verifier::rlimit(30)]
    pub fn find_backend(&self, path: &str) -> (res: Option<(&String, &String)>)
        requires
            self.well_formed(),
        ensures
            match spec_find_backend(self@.backends, path@) {
                Some(k) => res matches Some((p, b)) && p@ == k && b@ == self@.backends[k],
                None => res is None,
            },
    {
        let pc = chars_of(path);
        let mut best: Option<usize> = None;
        for i in 0..self.backends.len()
            invariant
                distinct_keys(self.backends@),
                pc@ == path@,
                match best {
                    Some(b) => b < i && is_prefix(self.backends@[b as int].0@, path@)
                        && forall|j: int| 0 <= j < i && is_prefix(#[trigger] self.backends@[j].0@, path@)
                            ==> self.backends@[j].0@.len() <= self.backends@[b as int].0@.len(),
                    None => forall|j: int| 0 <= j < i ==> !is_prefix(#[trigger] self.backends@[j].0@, path@),
                },
        {
            let k = chars_of(self.backends[i].0.as_str());
            if has_prefix(&pc, &k) {
                match best {
                    Some(b) => {
                        if chars_of(self.backends[b].0.as_str()).len() <= k.len() {
                            best = Some(i);
                        }
                    },
                    None => {
                        best = Some(i);
                    },
                }
            }
        }
        let ghost m = entries_map(self.backends@);
        match best {
            Some(b) => {
                proof {
                    lemma_entries_map_index(self.backends@, b as int);
                    let kb = self.backends@[b as int].0@;
                    assert(m.contains_key(kb) && is_prefix(kb, path@));
                    let c = choose|k: Seq<char>| m.contains_key(k) && is_prefix(k, path@)
                        && forall|o: Seq<char>| m.contains_key(o) && is_prefix(o, path@) ==> o.len() <= k.len();
                    assert forall|o: Seq<char>| m.contains_key(o) && is_prefix(o, path@) implies o.len() <= kb.len() by {
                        let j = choose|j: int| 0 <= j < self.backends@.len() && self.backends@[j].0@ == o;
                        assert(is_prefix(self.backends@[j].0@, path@));
                    }
                    assert(c.len() <= kb.len());
                    assert(kb.len() <= c.len());
                    lemma_prefixes_same_length(c, kb, path@);
                }
                Some((&self.backends[b].0, &self.backends[b].1))
            },
            None => {
                proof {
                    assert forall|k: Seq<char>| m.contains_key(k) implies !is_prefix(k, path@) by {
                        let j = choose|j: int| 0 <= j < self.backends@.len() && self.backends@[j].0@ == k;
                        assert(!is_prefix(self.backends@[j].0@, path@));
                    }
                }
                None
            },
        }
    }

    /// The backend URI for a request (see `backend_uri_text`) as `http::Uri` reads it; `None`
    /// when the text is no URI.
    pub fn rewrite_uri(&self, req: &HttpRequest, prefix: &str, backend: &str) -> (res: Option<(String, Option<String>, Option<u16>)>)
        requires
            is_prefix(prefix@, req.path@),
        ensures
            match res {
                Some((d, h, p)) => uri_parse(backend_uri_text(req.path@, opt_text(req.query), prefix@, backend@))
                    == Some((d@, opt_text(h), p)),
                None => uri_parse(backend_uri_text(req.path@, opt_text(req.query), prefix@, backend@)) is None,
            },
    {
        let path = chars_of(req.path.as_str());
        let pre = chars_of(prefix);
        let slash = chars_of("/");
        let bp: Vec<char> = if chars_eq(&pre, &slash) {
            path
        } else {
            let mut v: Vec<char> = Vec::new();
            for i in pre.len()..path.len()
                invariant
                    pre@.len() <= path@.len(),
                    v@ == path@.subrange(pre@.len() as int, i as int),
            {
                v.push(path[i]);
                assert(v@ == path@.subrange(pre@.len() as int, i + 1));
            }
            assert(v@ == path@.skip(pre@.len() as int));
            v
        };
        let ghost bpv = bp@;
        assert(bpv == (if prefix@ == "/"@ { req.path@ } else { req.path@.skip(prefix@.len() as int) })) by {
            reveal_strlit("/");
        }
        let mut b = chars_of(backend);
        let qm = chars_of("?");
        proof { reveal_strlit("?"); }
        if !ends_with_slash(&b) && !contains_chars(&b, &qm) && !starts_with_slash(&bp) {
            b.push('/');
            assert(b@ == backend@ + "/"@) by { reveal_strlit("/"); }
        }
        let ghost b1 = b@;
        if ends_with_slash(&b) && starts_with_slash(&bp) {
            for i in 1..bp.len()
                invariant
                    1 <= bp@.len(),
                    b@ == b1 + bp@.subrange(1, i as int),
            {
                b.push(bp[i]);
                assert(b@ == b1 + bp@.subrange(1, i + 1));
            }
            assert(bp@.subrange(1, bp@.len() as int) == bp@.skip(1));
        } else if !ends_with_slash(&b) && !starts_with_slash(&bp) {
            b.push('/');
            assert(b@ == b1 + "/"@) by { reveal_strlit("/"); }
            crate::text::extend_chars(&mut b, &bp);
        } else {
            crate::text::extend_chars(&mut b, &bp);
        }
        let ghost b2 = b@;
        if let Some(q) = &req.query {
            b.push('?');
            assert(b@ == b2 + "?"@);
            crate::text::extend_chars(&mut b, &chars_of(q.as_str()));
        }
        assert(b@ == backend_uri_text(req.path@, opt_text(req.query), prefix@, backend@));
        let text = string_of(&b);
        parse_uri(text.as_str())
    }
}

/// A request to forward: method, URI text, and header fields to insert in order (a later field
/// replaces an earlier one of the same name).
pub struct ProxiedRequest {
    pub method: String,
    pub uri: String,
    pub headers: Vec<(String, Vec<u8>)>,
}

/// The value of header `n` once the fields are inserted in order: the last field named `n`.
pub open spec fn field_value(h: Seq<(String, Vec<u8>)>, n: Seq<char>) -> Option<Seq<u8>>
    decreases h.len(),
{
    if h.len() == 0 {
        None
    } else if h.last().0@ == n {
        Some(h.last().1@)
    } else {
        field_value(h.drop_last(), n)
    }
}

/// Whether a header name is among the dropped ones, ignoring ASCII case.
pub open spec fn is_removed(removed: Seq<Seq<char>>, name: Seq<char>) -> bool {
    exists|i: int| 0 <= i < removed.len() && ascii_lower(#[trigger] removed[i]) == ascii_lower(name)
}

/// The value of header `n` copied from the request: the last field named `n`, unless its name is
/// dropped.
pub open spec fn copied_value(h: Seq<(String, Vec<u8>)>, removed: Seq<Seq<char>>, n: Seq<char>) -> Option<Seq<u8>>
    decreases h.len(),
{
    if h.len() == 0 {
        None
    } else if h.last().0@ == n && !is_removed(removed, h.last().0@) {
        Some(h.last().1@)
    } else {
        copied_value(h.drop_last(), removed, n)
    }
}

/// The `x-forwarded-for` text: the request's own value (when it is text), then the client
/// address after `, ` (or alone when there was no value); `unknown` without either; `unknown` too
/// when the result cannot stand in a header.
pub open spec fn forwarded_for_text(headers: Seq<(String, Vec<u8>)>, client: Option<Seq<char>>) -> Seq<char> {
    let t = match request_header(headers, "x-forwarded-for"@) {
        Some(b) => {
            let v = match spec_header_text(b) {
                Some(t) => t,
                None => Seq::empty(),
            };
            match client {
                Some(ip) => (if v.len() > 0 { v + ", "@ } else { v }) + ip,
                None => v,
            }
        },
        None => match client {
            Some(ip) => ip,
            None => "unknown"@,
        },
    };
    if valid_header_value(t) { t } else { "unknown"@ }
}

/// The `host` text for the backend: its host, with `:` and the port when it has one; `unknown`
/// when that cannot stand in a header.
pub open spec fn backend_host_text(host: Seq<char>, port: Option<u16>) -> Seq<char> {
    let t = match port {
        Some(p) => host + ":"@ + decimal(p as nat),
        None => host,
    };
    if valid_header_value(t) { t } else { "unknown"@ }
}

/// An added header field that applies to name `n`: valid, and named `n` once in lower case.
pub open spec fn adds_header(added: Map<Seq<char>, Seq<char>>, k: Seq<char>, n: Seq<char>) -> bool {
    added.contains_key(k) && valid_header_name(k) && valid_header_value(added[k]) && ascii_lower(k) == n
}

/// The value of header `n` on a forwarded request, without the added fields and the backend's
/// host: the `x-forwarded-*` fields when client addresses are forwarded, else the copied field.
pub open spec fn forwarded_value(v: ProxyView, req: HttpRequest, client: Option<Seq<char>>, n: Seq<char>) -> Option<Seq<u8>> {
    if v.forward_ip && n == "x-forwarded-for"@ {
        Some(encode_utf8(forwarded_for_text(req.headers@, client)))
    } else if v.forward_ip && n == "x-forwarded-proto"@ {
        Some(encode_utf8(if opt_text(req.scheme) == Some("https"@) { "https"@ } else { "http"@ }))
    } else if v.forward_ip && n == "x-forwarded-host"@ && request_header(req.headers@, "host"@) is Some {
        request_header(req.headers@, "host"@)
    } else {
        copied_value(req.headers@, v.remove_headers, n)
    }
}

/// An added field applies to name `n`: its name and value are valid and its name in lower case
/// is `n`.
pub open spec fn adds_entry(e: (String, String), n: Seq<char>) -> bool {
    valid_header_name(e.0@) && valid_header_value(e.1@) && ascii_lower(e.0@) == n
}

/// The index of the last added field that applies to `n`.
pub open spec fn last_adding(s: Seq<(String, String)>, n: Seq<char>) -> int
    decreases s.len(),
{
    if s.len() == 0 {
        -1
    } else if adds_entry(s.last(), n) {
        s.len() - 1
    } else {
        last_adding(s.drop_last(), n)
    }
}

proof fn lemma_last_adding(s: Seq<(String, String)>, n: Seq<char>)
    ensures
        (exists|j: int| 0 <= j < s.len() && adds_entry(s[j], n)) ==> 0 <= last_adding(s, n) < s.len()
            && adds_entry(s[last_adding(s, n)], n),
        !(exists|j: int| 0 <= j < s.len() && adds_entry(s[j], n)) ==> last_adding(s, n) == -1,
    decreases s.len(),
{
    if s.len() > 0 {
        let d = s.drop_last();
        lemma_last_adding(d, n);
        if !adds_entry(s.last(), n) {
            if exists|j: int| 0 <= j < s.len() && adds_entry(s[j], n) {
                let j = choose|j: int| 0 <= j < s.len() && adds_entry(s[j], n);
                assert(j < s.len() - 1);
                assert(adds_entry(d[j], n));
            }
            if exists|j: int| 0 <= j < d.len() && adds_entry(d[j], n) {
                let j = choose|j: int| 0 <= j < d.len() && adds_entry(d[j], n);
                assert(s[j] == d[j]);
            }
        }
    }
}

/// The client address text, if given.
pub open spec fn client_text(client_ip: Option<&str>) -> Option<Seq<char>> {
    match client_ip {
        Some(c) => Some(c@),
        None => None,
    }
}

/// The header fields of a forwarded request, by name: `host` for a backend URI with a host; else
/// an added field that applies to the name (which one, when several differ only in case, is left
/// open); else the `x-forwarded-*` or copied field (see `forwarded_value`).
#[verifier::opaque]
pub open spec fn proxied_headers(v: ProxyView, req: HttpRequest, client: Option<Seq<char>>, host: Option<Seq<char>>, port: Option<u16>, h: Seq<(String, Vec<u8>)>) -> bool {
    forall|n: Seq<char>| {
        let got = #[trigger] field_value(h, n);
        if host is Some && n == "host"@ {
            got == Some(encode_utf8(backend_host_text(host.unwrap(), port)))
        } else if exists|k: Seq<char>| adds_header(v.add_headers, k, n) {
            exists|k: Seq<char>| adds_header(v.add_headers, k, n) && got == Some(encode_utf8(v.add_headers[k]))
        } else {
            got == forwarded_value(v, req, client, n)
        }
    }
}

fn is_removed_exec(removed: &Vec<String>, name: &String) -> (res: bool)
    ensures
        res == is_removed(texts(removed@), name@),
{
    let lname = to_ascii_lower(name.as_str());
    let ln = chars_of(lname.as_str());
    for i in 0..removed.len()
        invariant
            ln@ == ascii_lower(name@),
            forall|j: int| 0 <= j < i ==> ascii_lower(#[trigger] removed@[j]@) != ascii_lower(name@),
    {
        let r = to_ascii_lower(removed[i].as_str());
        if chars_eq(&chars_of(r.as_str()), &ln) {
            assert(texts(removed@)[i as int] == removed@[i as int]@);
            return true;
        }
    }
    assert forall|j: int| 0 <= j < removed@.len() implies
        ascii_lower(#[trigger] texts(removed@)[j]) != ascii_lower(name@) by {
        assert(texts(removed@)[j] == removed@[j]@);
    }
    false
}

fn push_field(h: &mut Vec<(String, Vec<u8>)>, name: String, value: Vec<u8>)
    ensures
        forall|n: Seq<char>| #[trigger] field_value(final(h)@, n)
            == if n == name@ { Some(value@) } else { field_value(old(h)@, n) },
{
    let ghost nm = name@;
    let ghost vl = value@;
    h.push((name, value));
    assert(h@.drop_last() == old(h)@);
}

impl ProxyModule {
    /// The request to send to the backend for `prefix`: the request's method, the backend URI
    /// (see `rewrite_uri`), its header fields except the dropped ones, then the `x-forwarded-*`
    /// fields (with the client address text `client_ip`, when forwarding), then the added fields
    /// (valid ones, names in lower case), then `host` for the backend when its URI has a host.
    /// `None` when the backend URI is not valid.
    pub fn create_proxied_request(&self, req: &HttpRequest, client_ip: Option<&str>, prefix: &str, backend: &str)
        -> (res: Option<ProxiedRequest>)
        requires
            self.well_formed(),
            is_prefix(prefix@, req.path@),
        ensures
            match uri_parse(backend_uri_text(req.path@, opt_text(req.query), prefix@, backend@)) {
                None => res is None,
                Some((d, host, port)) => res matches Some(r) && r.method@ == req.method@ && r.uri@ == d
                    && proxied_headers(self@, *req, client_text(client_ip), host, port, r.headers@),
            },
    {
        let (uri, host, port) = match self.rewrite_uri(req, prefix, backend) {
            Some(u) => u,
            None => return None,
        };
        let ghost client = client_text(client_ip);
        let mut headers: Vec<(String, Vec<u8>)> = Vec::new();
        for i in 0..req.headers.len()
            invariant
                forall|n: Seq<char>| #[trigger] field_value(headers@, n)
                    == copied_value(req.headers@.take(i as int), self@.remove_headers, n),
        {
            assert(req.headers@.take(i + 1).drop_last() == req.headers@.take(i as int));
            if !is_removed_exec(&self.remove_headers, &req.headers[i].0) {
                push_field(&mut headers, req.headers[i].0.clone(), req.headers[i].1.clone());
            }
        }
        assert(req.headers@.take(req.headers@.len() as int) == req.headers@);
        if self.forward_ip {
            let existing = crate::message::first_header(&req.headers, "x-forwarded-for");
            let text: String = match existing {
                Some(b) => {
                    let mut v = match header_text(b.as_slice()) {
                        Some(t) => t,
                        None => String::new(),
                    };
                    if let Some(ip) = client_ip {
                        if chars_of(v.as_str()).len() > 0 {
                            v.append(", ");
                        }
                        v.append(ip);
                    }
                    v
                },
                None => match client_ip {
                    Some(ip) => ip.to_owned(),
                    None => "unknown".to_owned(),
                },
            };
            let value = if header_value_is_valid(text.as_str()) { text } else { "unknown".to_owned() };
            assert(value@ == forwarded_for_text(req.headers@, client)) by {
                reveal_strlit(", ");
            }
            let ghost h0 = headers@;
            push_field(&mut headers, "x-forwarded-for".to_owned(), crate::message::text_body(value.as_str()));
            let ghost h1 = headers@;
            let https = match &req.scheme {
                Some(s) => chars_eq(&chars_of(s.as_str()), &chars_of("https")),
                None => false,
            };
            let proto = if https { "https" } else { "http" };
            push_field(&mut headers, "x-forwarded-proto".to_owned(), crate::message::text_body(proto));
            let ghost h2 = headers@;
            let fh = crate::message::first_header(&req.headers, "host");
            if let Some(h) = fh {
                let hc = h.clone();
                assert(hc@ =~= h@);
                push_field(&mut headers, "x-forwarded-host".to_owned(), hc);
            }
            proof {
                reveal_strlit("x-forwarded-for");
                reveal_strlit("x-forwarded-proto");
                reveal_strlit("x-forwarded-host");
                reveal_strlit("https");
                reveal_strlit("http");
                assert("x-forwarded-host"@.len() == 16 && "x-forwarded-for"@.len() == 15 && "x-forwarded-proto"@.len() == 17);
                assert forall|n: Seq<char>| #[trigger] field_value(headers@, n) == forwarded_value(self@, *req, client, n) by {
                    assert(field_value(h0, n) == copied_value(req.headers@, self@.remove_headers, n));
                    assert(field_value(h1, n) == if n == "x-forwarded-for"@ {
                        Some(encode_utf8(forwarded_for_text(req.headers@, client)))
                    } else {
                        field_value(h0, n)
                    });
                    assert(field_value(h2, n) == if n == "x-forwarded-proto"@ {
                        Some(encode_utf8(if opt_text(req.scheme) == Some("https"@) { "https"@ } else { "http"@ }))
                    } else {
                        field_value(h1, n)
                    });
                    if fh is None {
                        assert(field_value(headers@, n) == field_value(h2, n));
                    } else {
                        assert(field_value(headers@, n) == if n == "x-forwarded-host"@ {
                            request_header(req.headers@, "host"@)
                        } else {
                            field_value(h2, n)
                        });
                    }
                }
            }
        } else {
            assert forall|n: Seq<char>| #[trigger] field_value(headers@, n) == forwarded_value(self@, *req, client, n) by {
                assert(field_value(headers@, n) == copied_value(req.headers@, self@.remove_headers, n));
            }
        }
        let ghost after_forward = headers@;
        for i in 0..self.add_headers.len()
            invariant
                distinct_keys(self.add_headers@),
                forall|n: Seq<char>| #[trigger] field_value(headers@, n)
                    == if exists|j: int| 0 <= j < i && adds_entry(self.add_headers@[j], n) {
                        Some(encode_utf8(self.add_headers@[last_adding(self.add_headers@.take(i as int), n)].1@))
                    } else {
                        field_value(after_forward, n)
                    },
        {
            let ghost prev = headers@;
            let name = &self.add_headers[i].0;
            let value = &self.add_headers[i].1;
            if header_name_is_valid(name.as_str()) && header_value_is_valid(value.as_str()) {
                push_field(&mut headers, to_ascii_lower(name.as_str()), crate::message::text_body(value.as_str()));
            }
            proof {
                let all = self.add_headers@;
                let t = all.take(i + 1);
                assert(t.drop_last() == all.take(i as int));
                assert(t.last() == all[i as int]);
                assert forall|n: Seq<char>| #[trigger] field_value(headers@, n)
                    == if exists|j: int| 0 <= j < i + 1 && adds_entry(all[j], n) {
                        Some(encode_utf8(all[last_adding(t, n)].1@))
                    } else {
                        field_value(after_forward, n)
                    } by {
                    if !adds_entry(all[i as int], n) {
                        assert(field_value(headers@, n) == field_value(prev, n));
                        if exists|j: int| 0 <= j < i + 1 && adds_entry(all[j], n) {
                            let j = choose|j: int| 0 <= j < i + 1 && adds_entry(all[j], n);
                            assert(j < i);
                        }
                    }
                }
            }
        }
        let ghost after_add = headers@;
        proof {
            let all = self.add_headers@;
            assert(all.take(all.len() as int) == all);
            assert forall|n: Seq<char>| #[trigger] field_value(after_add, n) == if exists|k: Seq<char>| adds_header(self@.add_headers, k, n) {
                Some(encode_utf8(self@.add_headers[all[last_adding(all, n)].0@]))
            } else {
                forwarded_value(self@, *req, client, n)
            } by {
                lemma_last_adding(all, n);
                if exists|j: int| 0 <= j < all.len() && adds_entry(all[j], n) {
                    let l = last_adding(all, n);
                    lemma_entries_map_index(all, l);
                    assert(adds_header(self@.add_headers, all[l].0@, n));
                } else {
                    if exists|k: Seq<char>| adds_header(self@.add_headers, k, n) {
                        let k = choose|k: Seq<char>| adds_header(self@.add_headers, k, n);
                        let j = choose|j: int| 0 <= j < all.len() && all[j].0@ == k;
                        lemma_entries_map_index(all, j);
                        assert(adds_entry(all[j], n));
                    }
                }
            }
        }
        if let Some(h) = &host {
            let mut t = h.clone();
            if let Some(p) = port {
                t.append(":");
                t.append(u64_to_string(p as u64).as_str());
            }
            let value = if header_value_is_valid(t.as_str()) { t } else { "unknown".to_owned() };
            assert(value@ == backend_host_text(h@, port)) by { reveal_strlit(":"); }
            push_field(&mut headers, "host".to_owned(), crate::message::text_body(value.as_str()));
        }
        proof {
            reveal_strlit("host");
            assert forall|n: Seq<char>| !(host is Some && n == "host"@) implies
                #[trigger] field_value(headers@, n) == field_value(after_add, n) by {}
            assert forall|n: Seq<char>| (exists|k: Seq<char>| adds_header(self@.add_headers, k, n)) && !(host is Some && n == "host"@) implies
                exists|k: Seq<char>| adds_header(self@.add_headers, k, n) && #[trigger] field_value(headers@, n) == Some(encode_utf8(self@.add_headers[k])) by {
                let all = self.add_headers@;
                lemma_last_adding(all, n);
                let k = choose|k: Seq<char>| adds_header(self@.add_headers, k, n);
                let j = choose|j: int| 0 <= j < all.len() && all[j].0@ == k;
                lemma_entries_map_index(all, j);
                assert(adds_entry(all[j], n));
                let l = last_adding(all, n);
                lemma_entries_map_index(all, l);
                assert(adds_header(self@.add_headers, all[l].0@, n));
            }
            reveal(proxied_headers);
        }
        Some(ProxiedRequest { method: req.method.clone(), uri, headers })
    }
}

/// How sending a forwarded request ended.
pub enum ProxyOutcome {
    /// The backend answered with this response.
    Response(HttpResponse),
    /// The request failed.
    Failed,
    /// No answer came within the timeout.
    TimedOut,
}

/// A dropped name removes the response field of its lower-case form, when it is a valid name.
pub open spec fn removes_response_header(removed: Seq<Seq<char>>, n: Seq<char>) -> bool {
    exists|i: int| 0 <= i < removed.len() && valid_header_name(#[trigger] removed[i]) && ascii_lower(removed[i]) == n
}

/// The entries of a table after inserting the given pairs in order.
pub open spec fn insert_all(m: Map<Seq<char>, Seq<char>>, pairs: Seq<(String, String)>) -> Map<Seq<char>, Seq<char>>
    decreases pairs.len(),
{
    if pairs.len() == 0 {
        m
    } else {
        insert_all(m, pairs.drop_last()).insert(pairs.last().0@, pairs.last().1@)
    }
}

impl ProxyModule {
    /// The request to send for a request whose path has a backend, with the timeout in seconds;
    /// nothing when no backend prefix matches; an error when the backend URI is not valid.
    pub fn pre_process(&self, req: &HttpRequest, client_ip: Option<&str>) -> (res: Result<Option<(ProxiedRequest, u64)>, String>)
        requires
            self.well_formed(),
        ensures
            match spec_find_backend(self@.backends, req.path@) {
                None => res matches Ok(None),
                Some(k) => match uri_parse(backend_uri_text(req.path@, opt_text(req.query), k, self@.backends[k])) {
                    None => res matches Err(e) && e@ == "Failed to parse backend URI"@,
                    Some((d, host, port)) => res matches Ok(Some((r, t))) && r.uri@ == d && r.method@ == req.method@
                        && proxied_headers(self@, *req, client_text(client_ip), host, port, r.headers@)
                        && t == self@.timeout,
                },
            },
    {
        proof { lemma_found_backend_is_prefix(self@.backends, req.path@); }
        match self.find_backend(req.path.as_str()) {
            None => Ok(None),
            Some((prefix, backend)) => {
                match self.create_proxied_request(req, client_ip, prefix.as_str(), backend.as_str()) {
                    Some(r) => Ok(Some((r, self.timeout))),
                    None => Err("Failed to parse backend URI".to_owned()),
                }
            },
        }
    }

    /// The response to pass on: the backend's, without the dropped fields and with
    /// `x-proxied-by: Rust Web Server`; 502 `Bad Gateway` when the request failed; 504
    /// `Gateway Timeout` when it timed out.
    pub fn finish_proxy(&self, outcome: ProxyOutcome) -> (res: HttpResponse)
        ensures
            match outcome {
                ProxyOutcome::Response(r) => res.status == r.status && res.body == r.body
                    && forall|n: Seq<char>| #[trigger] header_lookup(res.headers@, n) == if n == "x-proxied-by"@ {
                        Some("Rust Web Server"@)
                    } else if removes_response_header(self@.remove_headers, n) {
                        None
                    } else {
                        header_lookup(r.headers@, n)
                    },
                ProxyOutcome::Failed => res.status == 502 && res.headers@.len() == 0 && res.body@ == encode_utf8("Bad Gateway"@),
                ProxyOutcome::TimedOut => res.status == 504 && res.headers@.len() == 0 && res.body@ == encode_utf8("Gateway Timeout"@),
            },
    {
        match outcome {
            ProxyOutcome::Response(r) => {
                let ghost orig = r;
                let mut response = r;
                for i in 0..self.remove_headers.len()
                    invariant
                        response.status == orig.status,
                        response.body == orig.body,
                        forall|n: Seq<char>| #[trigger] header_lookup(response.headers@, n)
                            == if removes_response_header(self@.remove_headers.take(i as int), n) {
                                None
                            } else {
                                header_lookup(orig.headers@, n)
                            },
                {
                    let h = &self.remove_headers[i];
                    let ghost before = response.headers@;
                    if header_name_is_valid(h.as_str()) {
                        let lower = to_ascii_lower(h.as_str());
                        response.remove_header(lower.as_str());
                    }
                    proof {
                        let r = self@.remove_headers;
                        assert(r[i as int] == h@);
                        assert forall|n: Seq<char>| #[trigger] removes_response_header(r.take(i + 1), n)
                            == (removes_response_header(r.take(i as int), n) || (valid_header_name(h@) && ascii_lower(h@) == n)) by {
                            if removes_response_header(r.take(i + 1), n) {
                                let j = choose|j: int| 0 <= j < r.take(i + 1).len() && valid_header_name(#[trigger] r.take(i + 1)[j])
                                    && ascii_lower(r.take(i + 1)[j]) == n;
                                if j < i {
                                    assert(r.take(i as int)[j] == r.take(i + 1)[j]);
                                }
                            }
                            if removes_response_header(r.take(i as int), n) {
                                let j = choose|j: int| 0 <= j < r.take(i as int).len() && valid_header_name(#[trigger] r.take(i as int)[j])
                                    && ascii_lower(r.take(i as int)[j]) == n;
                                assert(r.take(i + 1)[j] == r.take(i as int)[j]);
                            }
                            if valid_header_name(h@) && ascii_lower(h@) == n {
                                assert(r.take(i + 1)[i as int] == h@);
                            }
                        }
                    }
                }
                assert(self@.remove_headers.take(self@.remove_headers.len() as int) == self@.remove_headers);
                response.set_header("x-proxied-by".to_owned(), "Rust Web Server".to_owned());
                response
            },
            ProxyOutcome::Failed => HttpResponse { status: 502, headers: Vec::new(), raw_headers: Vec::new(), body: crate::message::text_body("Bad Gateway") },
            ProxyOutcome::TimedOut => HttpResponse { status: 504, headers: Vec::new(), raw_headers: Vec::new(), body: crate::message::text_body("Gateway Timeout") },
        }
    }

    /// Applies the configured backends, timeout, forwarding switch and added header fields, in
    /// the configuration's order.
    pub fn init(&mut self, settings: &ProxySettings)
        requires
            old(self).well_formed(),
        ensures
            final(self).well_formed(),
            final(self)@.backends == insert_all(old(self)@.backends, settings.backends@),
            final(self)@.add_headers == insert_all(old(self)@.add_headers, settings.headers@),
            final(self)@.remove_headers == old(self)@.remove_headers,
            final(self)@.timeout == match settings.timeout { Some(t) => t, None => old(self)@.timeout },
            final(self)@.forward_ip == match settings.forward_ip { Some(f) => f, None => old(self)@.forward_ip },
    {
        let ghost start = self@;
        for i in 0..settings.backends.len()
            invariant
                self.well_formed(),
                self@.backends == insert_all(start.backends, settings.backends@.take(i as int)),
                self@.add_headers == start.add_headers,
                self@.remove_headers == start.remove_headers,
                self@.timeout == start.timeout,
                self@.forward_ip == start.forward_ip,
        {
            assert(settings.backends@.take(i + 1).drop_last() == settings.backends@.take(i as int));
            self.add_backend(settings.backends[i].0.as_str(), settings.backends[i].1.as_str());
        }
        assert(settings.backends@.take(settings.backends@.len() as int) == settings.backends@);
        if let Some(t) = settings.timeout {
            self.set_timeout(t);
        }
        if let Some(f) = settings.forward_ip {
            self.set_forward_ip(f);
        }
        let ghost mid = self@;
        for i in 0..settings.headers.len()
            invariant
                self.well_formed(),
                self@.add_headers == insert_all(start.add_headers, settings.headers@.take(i as int)),
                self@.backends == mid.backends,
                self@.remove_headers == start.remove_headers,
                self@.timeout == mid.timeout,
                self@.forward_ip == mid.forward_ip,
        {
            assert(settings.headers@.take(i + 1).drop_last() == settings.headers@.take(i as int));
            self.add_header(settings.headers[i].0.as_str(), settings.headers[i].1.as_str());
        }
        assert(settings.headers@.take(settings.headers@.len() as int) == settings.headers@);
    }
}

} // verus!
