use vstd::prelude::*;
use vstd::string::StrSliceExecFns;
use vstd::utf8::encode_utf8;
use crate::text::{chars_of, string_of};
use crate::net::IpAddress;

verus! {

/// A response in plain values: status code, header fields with text values in order (a name's
/// value is its first field, as `HeaderMap::get` gives it; see `header_lookup`), header fields
/// whose values are bytes that `HeaderValue::to_str` does not take as text (copied as they are
/// from a request), and body bytes.
pub struct HttpResponse {
    pub status: u16,
    pub headers: Vec<(String, String)>,
    pub raw_headers: Vec<(String, Vec<u8>)>,
    pub body: Vec<u8>,
}

/// A byte that may stand in a header value (`HeaderValue::from_bytes`): a tab, or at least 32 and
/// not 127.
pub open spec fn is_header_value_byte(b: u8) -> bool {
    b == 9 || (b >= 32 && b != 127)
}

/// Bytes that `HeaderValue::from_bytes` accepts.
pub open spec fn valid_header_bytes(b: Seq<u8>) -> bool {
    forall|i: int| 0 <= i < b.len() ==> is_header_value_byte(#[trigger] b[i])
}

/// Whether bytes can stand as a header value.
pub fn header_bytes_valid(b: &[u8]) -> (res: bool)
    ensures
        res == valid_header_bytes(b@),
{
    for i in 0..b.len()
        invariant
            forall|j: int| 0 <= j < i ==> is_header_value_byte(#[trigger] b@[j]),
    {
        let c = b[i];
        if !(c == 9 || (c >= 32 && c != 127)) {
            assert(!is_header_value_byte(b@[i as int]));
            return false;
        }
    }
    true
}

/// The bytes of a text body: its UTF-8 encoding.
pub fn text_body(s: &str) -> (res: Vec<u8>)
    ensures
        res@ == encode_utf8(s@),
{
    s.as_bytes_vec()
}

/// A request in plain values: method, the full URI as text, its scheme, authority, path and
/// query, the header
/// fields in order (lower-case names, raw values), and the client addresses known for it: the
/// peer address of the connection, the address that the `X-Forwarded-For` candidate (see
/// `forwarded_for_candidate`) parses to, and the IP of a textual socket address attached to the
/// request; each `None` when unknown or unparsable.
pub struct HttpRequest {
    pub method: String,
    pub uri: String,
    pub scheme: Option<String>,
    pub authority: Option<String>,
    pub path: String,
    pub query: Option<String>,
    pub headers: Vec<(String, Vec<u8>)>,
    pub peer_ip: Option<IpAddress>,
    pub forwarded_ip: Option<IpAddress>,
    pub remote_ip: Option<IpAddress>,
}

/// The value of the first request header field named `name` (as `HeaderMap::get` finds it).
pub open spec fn request_header(h: Seq<(String, Vec<u8>)>, name: Seq<char>) -> Option<Seq<u8>>
    decreases h.len(),
{
    if h.len() == 0 {
        None
    } else if h[0].0@ == name {
        Some(h[0].1@)
    } else {
        request_header(h.drop_first(), name)
    }
}

/// The value of the first header field named `name`.
pub fn first_header<'a>(headers: &'a Vec<(String, Vec<u8>)>, name: &str) -> (res: Option<&'a Vec<u8>>)
    ensures
        match res {
            Some(v) => request_header(headers@, name@) == Some(v@),
            None => request_header(headers@, name@) is None,
        },
{
    let n = name.to_owned();
    assert(headers@.skip(0) == headers@);
    for i in 0..headers.len()
        invariant
            n@ == name@,
            request_header(headers@, name@) == request_header(headers@.skip(i as int), name@),
    {
        assert(headers@.skip(i as int).drop_first() == headers@.skip(i + 1));
        assert(headers@.skip(i as int)[0] == headers@[i as int]);
        if headers[i].0 == n {
            return Some(&headers[i].1);
        }
    }
    None
}

/// A character that may stand in a header value: visible ASCII, tab, or any non-ASCII character.
pub open spec fn is_header_value_char(c: char) -> bool {
    c == '\t' || (c as u32 >= 32 && c as u32 != 127)
}

/// Text that `HeaderValue::from_str` accepts.
pub open spec fn valid_header_value(s: Seq<char>) -> bool {
    forall|i: int| 0 <= i < s.len() ==> is_header_value_char(#[trigger] s[i])
}

/// Whether `s` can stand as a header value, as `HeaderValue::from_str` decides it: each of its
/// UTF-8 bytes is a tab or at least 32 and not 127, that is each character is.
pub(crate) fn header_value_is_valid(s: &str) -> (res: bool)
    ensures
        res == valid_header_value(s@),
{
    let v = chars_of(s);
    for i in 0..v.len()
        invariant
            v@ == s@,
            forall|j: int| 0 <= j < i ==> is_header_value_char(#[trigger] v@[j]),
    {
        let c = v[i];
        if !(c == '\t' || ((c as u32) >= 32 && (c as u32) != 127)) {
            assert(!is_header_value_char(v@[i as int]));
            return false;
        }
    }
    true
}

/// A byte that `HeaderValue::to_str` accepts: visible ASCII or tab.
pub open spec fn is_visible_ascii(b: u8) -> bool {
    (32 <= b && b < 127) || b == 9
}

/// The characters of bytes that are all ASCII.
pub open spec fn ascii_chars(b: Seq<u8>) -> Seq<char> {
    Seq::new(b.len(), |i: int| b[i] as char)
}

/// The text of a header value's bytes, as `HeaderValue::to_str` gives it: only when every byte is
/// visible ASCII or tab.
pub open spec fn spec_header_text(b: Seq<u8>) -> Option<Seq<char>> {
    if forall|i: int| 0 <= i < b.len() ==> is_visible_ascii(#[trigger] b[i]) {
        Some(ascii_chars(b))
    } else {
        None
    }
}

/// The text of a header value, when its bytes are visible ASCII or tab.
pub fn header_text(bytes: &[u8]) -> (res: Option<String>)
    ensures
        match res {
            Some(s) => spec_header_text(bytes@) == Some(s@),
            None => spec_header_text(bytes@) is None,
        },
{
    let mut v: Vec<char> = Vec::new();
    for i in 0..bytes.len()
        invariant
            v@ == ascii_chars(bytes@.take(i as int)),
            forall|j: int| 0 <= j < i ==> is_visible_ascii(#[trigger] bytes@[j]),
    {
        let b = bytes[i];
        if !((32 <= b && b < 127) || b == 9) {
            return None;
        }
        v.push(b as char);
        assert(v@ =~= ascii_chars(bytes@.take(i + 1)));
    }
    assert(bytes@.take(bytes.len() as int) == bytes@);
    Some(string_of(&v))
}


/// The value of header `name` as `HeaderMap::get` gives it: the first field of that name.
pub open spec fn header_lookup(h: Seq<(String, String)>, name: Seq<char>) -> Option<Seq<char>>
    decreases h.len(),
{
    if h.len() == 0 {
        None
    } else if h[0].0@ == name {
        Some(h[0].1@)
    } else {
        header_lookup(h.drop_first(), name)
    }
}

proof fn lemma_lookup_single(x: (String, String), n: Seq<char>)
    ensures
        header_lookup(seq![x], n) == if x.0@ == n { Some(x.1@) } else { None },
{
    assert(seq![x][0] == x);
    assert(seq![x].drop_first() =~= Seq::<(String, String)>::empty());
    assert(header_lookup(Seq::<(String, String)>::empty(), n) is None);
}

/// Looking up in fields followed by more fields finds the first part's field when it has one.
pub proof fn lemma_lookup_append(a: Seq<(String, String)>, b: Seq<(String, String)>, n: Seq<char>)
    ensures
        header_lookup(a + b, n) == match header_lookup(a, n) {
            Some(v) => Some(v),
            None => header_lookup(b, n),
        },
    decreases a.len(),
{
    if a.len() == 0 {
        assert(a + b =~= b);
    } else {
        assert((a + b).drop_first() =~= a.drop_first() + b);
        assert((a + b)[0] == a[0]);
        lemma_lookup_append(a.drop_first(), b, n);
    }
}

/// The header fields of `h` not named `name`, in order.
pub open spec fn without_header(h: Seq<(String, String)>, name: Seq<char>) -> Seq<(String, String)>
    decreases h.len(),
{
    if h.len() == 0 {
        h
    } else {
        let r = without_header(h.drop_last(), name);
        if h.last().0@ == name {
            r
        } else {
            r.push(h.last())
        }
    }
}

/// Removing the fields named `name` leaves every other name's value as it was.
pub proof fn lemma_lookup_without(h: Seq<(String, String)>, name: Seq<char>, n: Seq<char>)
    ensures
        header_lookup(without_header(h, name), n) == if n == name { None } else { header_lookup(h, n) },
    decreases h.len(),
{
    if h.len() > 0 {
        let d = h.drop_last();
        lemma_lookup_without(d, name, n);
        let r = without_header(d, name);
        assert(h =~= d + seq![h.last()]);
        lemma_lookup_append(d, seq![h.last()], n);
        lemma_lookup_single(h.last(), n);
        if h.last().0@ != name {
            lemma_lookup_append(r, seq![h.last()], n);
            assert(r.push(h.last()) =~= r + seq![h.last()]);
            assert(without_header(h, name) == r.push(h.last()));
        } else {
            assert(without_header(h, name) == r);
        }
    } else {
        assert(without_header(h, name) == h);
    }
}

impl HttpResponse {
    /// Sets the header `name` to `value`, replacing every earlier field of that name
    /// (as `HeaderMap::insert` does).
    pub fn set_header(&mut self, name: String, value: String)
        ensures
            final(self).status == old(self).status,
            final(self).body == old(self).body,
            final(self).headers@ == without_header(old(self).headers@, name@).push((name, value)),
            forall|n: Seq<char>| #[trigger] header_lookup(final(self).headers@, n)
                == if n == name@ { Some(value@) } else { header_lookup(old(self).headers@, n) },
    {
        let ghost old_headers = self.headers@;
        let ghost name_v = name;
        let ghost value_v = value;
        let mut kept: Vec<(String, String)> = Vec::new();
        for i in 0..self.headers.len()
            invariant
                kept@ == without_header(self.headers@.take(i as int), name@),
        {
            assert(self.headers@.take(i + 1).drop_last() == self.headers@.take(i as int));
            if !(self.headers[i].0 == name) {
                let n = self.headers[i].0.clone();
                let v = self.headers[i].1.clone();
                kept.push((n, v));
            }
        }
        assert(self.headers@.take(self.headers.len() as int) == self.headers@);
        kept.push((name, value));
        self.headers = kept;
        proof {
            assert forall|n: Seq<char>| #[trigger] header_lookup(self.headers@, n)
                == if n == name_v@ { Some(value_v@) } else { header_lookup(old_headers, n) } by {
                lemma_set_header_lookup(old_headers, name_v, value_v, n);
            }
        }
    }
}

impl HttpResponse {
    /// Removes every field named `name`.
    pub fn remove_header(&mut self, name: &str)
        ensures
            final(self).status == old(self).status,
            final(self).body == old(self).body,
            final(self).headers@ == without_header(old(self).headers@, name@),
            forall|n: Seq<char>| #[trigger] header_lookup(final(self).headers@, n)
                == if n == name@ { None } else { header_lookup(old(self).headers@, n) },
    {
        let ghost old_headers = self.headers@;
        let target = name.to_owned();
        let mut kept: Vec<(String, String)> = Vec::new();
        for i in 0..self.headers.len()
            invariant
                target@ == name@,
                kept@ == without_header(self.headers@.take(i as int), name@),
        {
            assert(self.headers@.take(i + 1).drop_last() == self.headers@.take(i as int));
            if !(self.headers[i].0 == target) {
                let n = self.headers[i].0.clone();
                let v = self.headers[i].1.clone();
                kept.push((n, v));
            }
        }
        assert(self.headers@.take(self.headers.len() as int) == self.headers@);
        self.headers = kept;
        proof {
            assert forall|n: Seq<char>| #[trigger] header_lookup(self.headers@, n)
                == if n == name@ { None } else { header_lookup(old_headers, n) } by {
                lemma_lookup_without(old_headers, name@, n);
            }
        }
    }
}

/// After setting a header, its value is the one set and every other header is unchanged.
pub proof fn lemma_set_header_lookup(h: Seq<(String, String)>, name: String, value: String, n: Seq<char>)
    ensures
        header_lookup(without_header(h, name@).push((name, value)), n)
            == if n == name@ { Some(value@) } else { header_lookup(h, n) },
{
    let w = without_header(h, name@);
    lemma_lookup_without(h, name@, n);
    lemma_lookup_append(w, seq![(name, value)], n);
    lemma_lookup_single((name, value), n);
    assert(w.push((name, value)) =~= w + seq![(name, value)]);
}


/// A response header's text as `HeaderValue::to_str` gives it: only when every character is
/// visible ASCII or tab.
pub open spec fn response_header_text(h: Seq<(String, String)>, name: Seq<char>) -> Option<Seq<char>> {
    match header_lookup(h, name) {
        Some(v) => if forall|i: int| 0 <= i < v.len() ==> is_visible_char(#[trigger] v[i]) {
            Some(v)
        } else {
            None
        },
        None => None,
    }
}

/// Visible ASCII or tab.
pub open spec fn is_visible_char(c: char) -> bool {
    c == '\t' || (' ' <= c && c <= '~')
}

/// The value of header `name` (the first field of that name).
pub fn response_header<'a>(headers: &'a Vec<(String, String)>, name: &str) -> (res: Option<&'a String>)
    ensures
        match res {
            Some(v) => header_lookup(headers@, name@) == Some(v@),
            None => header_lookup(headers@, name@) is None,
        },
{
    let n = name.to_owned();
    assert(headers@.skip(0) == headers@);
    for i in 0..headers.len()
        invariant
            n@ == name@,
            header_lookup(headers@, name@) == header_lookup(headers@.skip(i as int), name@),
    {
        assert(headers@.skip(i as int).drop_first() == headers@.skip(i + 1));
        assert(headers@.skip(i as int)[0] == headers@[i as int]);
        if headers[i].0 == n {
            return Some(&headers[i].1);
        }
    }
    None
}

/// Whether every character is visible ASCII or tab.
pub fn visible_text(v: &Vec<char>) -> (res: bool)
    ensures
        res == forall|i: int| 0 <= i < v@.len() ==> is_visible_char(#[trigger] v@[i]),
{
    for i in 0..v.len()
        invariant
            forall|j: int| 0 <= j < i ==> is_visible_char(#[trigger] v@[j]),
    {
        let c = v[i];
        if !(c == '\t' || (' ' <= c && c <= '~')) {
            assert(!is_visible_char(v@[i as int]));
            return false;
        }
    }
    true
}

/// A response header's text, when it is visible ASCII.
pub fn response_text(headers: &Vec<(String, String)>, name: &str) -> (res: Option<Vec<char>>)
    ensures
        match res {
            Some(v) => response_header_text(headers@, name@) == Some(v@),
            None => response_header_text(headers@, name@) is None,
        },
{
    match response_header(headers, name) {
        Some(v) => {
            let chars = chars_of(v.as_str());
            if visible_text(&chars) {
                Some(chars)
            } else {
                None
            }
        },
        None => None,
    }
}

/// A character that may stand in a header name (`HeaderName::from_bytes` maps it to itself or
/// to its lower case).
pub open spec fn is_header_name_char(c: char) -> bool {
    ('a' <= c && c <= 'z') || ('A' <= c && c <= 'Z') || ('0' <= c && c <= '9') || c == '!' || c == '"'
        || c == '#' || c == '$' || c == '%' || c == '&' || c == '\'' || c == '*' || c == '+' || c == '-'
        || c == '.' || c == '^' || c == '_' || c == '`' || c == '|' || c == '~'
}

/// Text that `HeaderName::from_bytes` accepts: one to 65535 header name characters.
pub open spec fn valid_header_name(s: Seq<char>) -> bool {
    1 <= s.len() <= 65535 && forall|i: int| 0 <= i < s.len() ==> is_header_name_char(#[trigger] s[i])
}

/// Whether `http::HeaderName::from_bytes` accepts the bytes of `name`.
/// Claims that it does exactly when `valid_header_name` holds: the crate's table admits the
/// characters of `is_header_name_char` (any other byte, non-ASCII ones too, is refused) and
/// lengths from 1 to 65535.
#[verifier::external_body]
pub(crate) fn header_name_is_valid(name: &str) -> (res: bool)
    ensures
        res == valid_header_name(name@),
{
    http::header::HeaderName::from_bytes(name.as_bytes()).is_ok()
}

/// The text with ASCII capitals made small, as a header name is stored.
pub open spec fn ascii_lower(s: Seq<char>) -> Seq<char> {
    Seq::new(s.len(), |i: int| if 'A' <= s[i] && s[i] <= 'Z' { ((s[i] as u32) + 32) as char } else { s[i] })
}

/// The text with ASCII capitals made small.
pub fn to_ascii_lower(s: &str) -> (res: String)
    ensures
        res@ == ascii_lower(s@),
{
    let c = chars_of(s);
    let mut out: Vec<char> = Vec::new();
    for i in 0..c.len()
        invariant
            out@ == ascii_lower(c@.take(i as int)),
    {
        let ch = c[i];
        if 'A' <= ch && ch <= 'Z' {
            let lower = ((ch as u32) + 32) as u8;
            out.push(lower as char);
        } else {
            out.push(ch);
        }
        assert(out@ =~= ascii_lower(c@.take(i + 1)));
    }
    assert(c@.take(c@.len() as int) == c@);
    string_of(&out)
}

/// The text of an optional string.
pub open spec fn opt_text(s: Option<String>) -> Option<Seq<char>> {
    match s {
        Some(t) => Some(t@),
        None => None,
    }
}

/// The URI that `http::Uri::from_parts` builds from the scheme and authority texts and the
/// path-and-query text, as its display, path and query; `Err(true)` when the path-and-query text
/// is not valid, `Err(false)` when the parts do not make a URI.
pub uninterp spec fn uri_rebuild(scheme: Option<Seq<char>>, authority: Option<Seq<char>>, path_and_query: Seq<char>)
    -> Result<(Seq<char>, Seq<char>, Option<Seq<char>>), bool>;

/// `PathAndQuery::from_str` and `Uri::from_parts` from the given texts, then the new URI's display,
/// `path()` and `query()`. Claims that the result is the named `uri_rebuild` of the arguments.
#[verifier::external_body]
pub(crate) fn rebuild_uri(scheme: &Option<String>, authority: &Option<String>, path_and_query: &str)
    -> (res: Result<(String, String, Option<String>), bool>)
    ensures
        match res {
            Ok((d, p, q)) => uri_rebuild(opt_text(*scheme), opt_text(*authority), path_and_query@)
                == Ok::<(Seq<char>, Seq<char>, Option<Seq<char>>), bool>((d@, p@, opt_text(q))),
            Err(b) => uri_rebuild(opt_text(*scheme), opt_text(*authority), path_and_query@)
                == Err::<(Seq<char>, Seq<char>, Option<Seq<char>>), bool>(b),
        },
{
    let pq = path_and_query.parse::<http::uri::PathAndQuery>().map_err(|_| true)?;
    let mut parts = http::uri::Parts::default();
    parts.scheme = scheme.as_deref().map(str::parse).transpose().map_err(|_| false)?;
    parts.authority = authority.as_deref().map(str::parse).transpose().map_err(|_| false)?;
    parts.path_and_query = Some(pq);
    let u = http::Uri::from_parts(parts).map_err(|_| false)?;
    Ok((u.to_string(), u.path().to_string(), u.query().map(str::to_string)))
}

} // verus!
