use vstd::prelude::*;
use vstd::string::StringExecFns;
use vstd::utf8::encode_utf8;
use crate::handlers::error::{forbidden, is_error_response, not_found};
use crate::message::{
    first_header, header_bytes_valid, header_text, header_value_is_valid, request_header, spec_header_text,
    text_body, valid_header_bytes, valid_header_value, HttpRequest, HttpResponse,
};
use crate::modules::static_files::{guess_mime, mime_for_path, FileQuery, QueryView, query_view};
use crate::security::{is_path_traversal, sanitize_path, sanitized_path_keeps_leading_slash, spec_is_path_traversal, spec_sanitize_path};
use crate::text::{chars_eq, chars_of, decimal, string_of, u64_to_string};
use crate::vhost::{find_virtual_host, join_path, join_path_text, spec_find_virtual_host, Location, VirtualHost};

verus! {

/// The IMF-fixdate text that `httpdate::fmt_http_date` gives for a time `secs` seconds after the
/// Unix epoch.
pub uninterp spec fn http_date_text(secs: u64) -> Seq<char>;

/// `httpdate::fmt_http_date` of the time `secs` seconds after the epoch. Claims that the result
/// is the named `http_date_text` of `secs`; the crate panics from the year 9999 on, so `secs` must
/// be below 253402300800.
#[verifier::external_body]
fn http_date(secs: u64) -> (res: String)
    requires
        secs < 253402300800,
    ensures
        res@ == http_date_text(secs),
{
    httpdate::fmt_http_date(std::time::UNIX_EPOCH + std::time::Duration::from_secs(secs))
}

/// How a request is handled, by its method.
#[derive(Clone, Copy, Debug, PartialEq, Eq, Structural)]
pub enum Route {
    /// `GET` or `HEAD` (then only the headers are sent).
    Get { head_only: bool },
    Post,
    Put,
    Delete,
    Options,
    /// Any other method: 405.
    Other,
}

/// The route of a method.
pub open spec fn spec_route(method: Seq<char>) -> Route {
    if method == "GET"@ {
        Route::Get { head_only: false }
    } else if method == "HEAD"@ {
        Route::Get { head_only: true }
    } else if method == "POST"@ {
        Route::Post
    } else if method == "PUT"@ {
        Route::Put
    } else if method == "DELETE"@ {
        Route::Delete
    } else if method == "OPTIONS"@ {
        Route::Options
    } else {
        Route::Other
    }
}

/// The route of a request's method.
pub fn route_method(method: &str) -> (res: Route)
    ensures
        res == spec_route(method@),
{
    let m = chars_of(method);
    if chars_eq(&m, &chars_of("GET")) {
        Route::Get { head_only: false }
    } else if chars_eq(&m, &chars_of("HEAD")) {
        Route::Get { head_only: true }
    } else if chars_eq(&m, &chars_of("POST")) {
        Route::Post
    } else if chars_eq(&m, &chars_of("PUT")) {
        Route::Put
    } else if chars_eq(&m, &chars_of("DELETE")) {
        Route::Delete
    } else if chars_eq(&m, &chars_of("OPTIONS")) {
        Route::Options
    } else {
        Route::Other
    }
}

/// The host name a request asks for: its `host` header when that is text, else `localhost`.
pub open spec fn requested_host(req: HttpRequest) -> Seq<char> {
    match request_header(req.headers@, "host"@) {
        Some(b) => match spec_header_text(b) {
            Some(t) => t,
            None => "localhost"@,
        },
        None => "localhost"@,
    }
}

/// The virtual host for a request (see `find_virtual_host`); there is always one, as at least one
/// host is configured.
pub fn select_vhost<'a>(vhosts: &'a [VirtualHost], req: &HttpRequest) -> (res: &'a VirtualHost)
    requires
        vhosts@.len() > 0,
    ensures
        spec_find_virtual_host(vhosts@, requested_host(*req)) matches Some(i) && *res == vhosts@[i],
{
    let host: String = match first_header(&req.headers, "host") {
        Some(b) => match header_text(b.as_slice()) {
            Some(t) => t,
            None => "localhost".to_owned(),
        },
        None => "localhost".to_owned(),
    };
    match find_virtual_host(vhosts, host.as_str()) {
        Some(v) => v,
        None => &vhosts[0],
    }
}

/// The plain 405 answer to a method the server does not know: `Method Not Allowed`.
pub fn unknown_method_response() -> (res: HttpResponse)
    ensures
        res.status == 405,
        res.headers@.len() == 0,
        res.body@ == encode_utf8("Method Not Allowed"@),
{
    HttpResponse { status: 405, headers: Vec::new(), raw_headers: Vec::new(), body: text_body("Method Not Allowed") }
}

/// The 405 answer to `POST`, `PUT` and `DELETE`: `Method Not Allowed` with
/// `allow: GET, HEAD, OPTIONS`.
pub open spec fn is_not_supported_response(res: HttpResponse) -> bool {
    &&& res.status == 405
    &&& res.body@ == encode_utf8("Method Not Allowed"@)
    &&& res.headers@.len() == 1
    &&& res.headers@[0].0@ == "allow"@
    &&& res.headers@[0].1@ == "GET, HEAD, OPTIONS"@
}

fn not_supported() -> (res: HttpResponse)
    ensures
        is_not_supported_response(res),
{
    let mut headers: Vec<(String, String)> = Vec::new();
    headers.push(("allow".to_owned(), "GET, HEAD, OPTIONS".to_owned()));
    HttpResponse { status: 405, headers, raw_headers: Vec::new(), body: text_body("Method Not Allowed") }
}

/// The answer to `POST`: not supported.
pub fn handle_post(req: &HttpRequest) -> (res: HttpResponse)
    ensures
        is_not_supported_response(res),
{
    not_supported()
}

/// The answer to `PUT`: not supported.
pub fn handle_put(req: &HttpRequest) -> (res: HttpResponse)
    ensures
        is_not_supported_response(res),
{
    not_supported()
}

/// The answer to `DELETE`: not supported.
pub fn handle_delete(req: &HttpRequest) -> (res: HttpResponse)
    ensures
        is_not_supported_response(res),
{
    not_supported()
}

/// The methods joined with `, `.
pub open spec fn join_methods(items: Seq<String>) -> Seq<char>
    decreases items.len(),
{
    if items.len() == 0 {
        Seq::empty()
    } else if items.len() == 1 {
        items[0]@
    } else {
        join_methods(items.drop_last()) + ", "@ + items.last()@
    }
}

/// The `allow` value of a host: its methods joined with `, `, or `GET, HEAD, OPTIONS` when that
/// cannot stand in a header.
pub open spec fn allow_value(vhost: VirtualHost) -> Seq<char> {
    let j = join_methods(vhost.allow_methods@);
    if valid_header_value(j) { j } else { "GET, HEAD, OPTIONS"@ }
}

/// Where a copied request header value goes in the response: a text field when its bytes are
/// visible ASCII or tab, else a field of bytes when they can stand in a header, else nowhere.
pub open spec fn copied_field(name: Seq<char>, v: Seq<u8>) -> (Seq<(Seq<char>, Seq<char>)>, Seq<(Seq<char>, Seq<u8>)>) {
    match spec_header_text(v) {
        Some(t) => (seq![(name, t)], Seq::empty()),
        None => if valid_header_bytes(v) { (Seq::empty(), seq![(name, v)]) } else { (Seq::empty(), Seq::empty()) },
    }
}

/// The answer to `OPTIONS`: status 200, no body, `allow` with the host's methods; for a request
/// with an `origin` (every origin is allowed), the CORS fields: the origin, credentials, the
/// methods, the requested headers when asked for, and a max age of a day. The origin and the
/// requested headers are copied as they are (see `copied_field`).
pub fn handle_options(req: &HttpRequest, vhost: &VirtualHost) -> (res: HttpResponse)
    ensures
        res.status == 200,
        res.body@.len() == 0,
        res.headers@.len() >= 1,
        res.headers@[0].0@ == "allow"@,
        res.headers@[0].1@ == allow_value(*vhost),
        request_header(req.headers@, "origin"@) is None ==> res.headers@.len() == 1 && res.raw_headers@.len() == 0,
        request_header(req.headers@, "origin"@) matches Some(o) ==> {
            let origin = copied_field("access-control-allow-origin"@, o);
            let ask = match request_header(req.headers@, "access-control-request-headers"@) {
                Some(b) => copied_field("access-control-allow-headers"@, b),
                None => (Seq::empty(), Seq::empty()),
            };
            let fields = seq![
                ("access-control-allow-credentials"@, "true"@),
                ("access-control-allow-methods"@, allow_value(*vhost)),
            ];
            let expected = seq![("allow"@, allow_value(*vhost))] + origin.0 + fields + ask.0
                + seq![("access-control-max-age"@, "86400"@)];
            let raw = origin.1 + ask.1;
            &&& res.headers@.len() == expected.len()
            &&& forall|i: int| 0 <= i < expected.len() ==> (#[trigger] res.headers@[i]).0@ == expected[i].0
                && res.headers@[i].1@ == expected[i].1
            &&& res.raw_headers@.len() == raw.len()
            &&& forall|i: int| 0 <= i < raw.len() ==> (#[trigger] res.raw_headers@[i]).0@ == raw[i].0
                && res.raw_headers@[i].1@ == raw[i].1
        },
{
    let mut allow = String::new();
    for i in 0..vhost.allow_methods.len()
        invariant
            allow@ == join_methods(vhost.allow_methods@.take(i as int)),
    {
        assert(vhost.allow_methods@.take(i + 1).drop_last() == vhost.allow_methods@.take(i as int));
        if i > 0 {
            allow.append(", ");
        }
        allow.append(vhost.allow_methods[i].as_str());
    }
    assert(vhost.allow_methods@.take(vhost.allow_methods@.len() as int) == vhost.allow_methods@);
    let allow = if header_value_is_valid(allow.as_str()) { allow } else { "GET, HEAD, OPTIONS".to_owned() };
    let mut headers: Vec<(String, String)> = Vec::new();
    let mut raw_headers: Vec<(String, Vec<u8>)> = Vec::new();
    headers.push(("allow".to_owned(), allow.clone()));
    if let Some(o) = first_header(&req.headers, "origin") {
        let ghost h0 = headers@;
        let ghost origin = copied_field("access-control-allow-origin"@, o@);
        copy_field(&mut headers, &mut raw_headers, "access-control-allow-origin".to_owned(), o);
        let ghost h1 = headers@;
        let ghost r1 = raw_headers@;
        headers.push(("access-control-allow-credentials".to_owned(), "true".to_owned()));
        headers.push(("access-control-allow-methods".to_owned(), allow));
        let ghost h2 = headers@;
        let ghost ask = match request_header(req.headers@, "access-control-request-headers"@) {
            Some(b) => copied_field("access-control-allow-headers"@, b),
            None => (Seq::<(Seq<char>, Seq<char>)>::empty(), Seq::<(Seq<char>, Seq<u8>)>::empty()),
        };
        if let Some(a) = first_header(&req.headers, "access-control-request-headers") {
            copy_field(&mut headers, &mut raw_headers, "access-control-allow-headers".to_owned(), a);
        }
        let ghost h3 = headers@;
        headers.push(("access-control-max-age".to_owned(), "86400".to_owned()));
        proof {
            let fields = seq![
                ("access-control-allow-credentials"@, "true"@),
                ("access-control-allow-methods"@, allow_value(*vhost)),
            ];
            let expected = seq![("allow"@, allow_value(*vhost))] + origin.0 + fields + ask.0
                + seq![("access-control-max-age"@, "86400"@)];
            let n1 = 1 + origin.0.len();
            assert(h1.len() == n1);
            assert(h3.len() == n1 + 2 + ask.0.len());
            assert forall|i: int| 0 <= i < expected.len() implies (#[trigger] headers@[i]).0@ == expected[i].0
                && headers@[i].1@ == expected[i].1 by {
                if i == 0 {
                    assert(headers@[0] == h0[0]);
                } else if i < n1 {
                    assert(headers@[i] == h1[i]);
                    assert(h1[1 + (i - 1)] == h1[i]);
                } else if i < n1 + 2 {
                    assert(headers@[i] == h2[i]);
                } else if i < n1 + 2 + ask.0.len() {
                    assert(headers@[i] == h3[i]);
                    assert(h3[h2.len() + (i - h2.len())] == h3[i]);
                } else {
                    assert(i == h3.len());
                }
            }
            let raw = origin.1 + ask.1;
            assert forall|i: int| 0 <= i < raw.len() implies (#[trigger] raw_headers@[i]).0@ == raw[i].0
                && raw_headers@[i].1@ == raw[i].1 by {
                if i < origin.1.len() {
                    assert(raw_headers@[i] == r1[i]);
                    assert(r1[0 + i] == r1[i]);
                } else {
                    assert(raw_headers@[r1.len() + (i - r1.len())] == raw_headers@[i]);
                }
            }
        }
    }
    HttpResponse { status: 200, headers, raw_headers, body: Vec::new() }
}

/// Adds a copied request header value as `copied_field` places it.
fn copy_field(headers: &mut Vec<(String, String)>, raw_headers: &mut Vec<(String, Vec<u8>)>, name: String, v: &Vec<u8>)
    ensures
        ({
            let (t, r) = copied_field(name@, v@);
            &&& final(headers)@.len() == old(headers)@.len() + t.len()
            &&& forall|i: int| 0 <= i < old(headers)@.len() ==> #[trigger] final(headers)@[i] == old(headers)@[i]
            &&& forall|i: int| 0 <= i < t.len() ==> (#[trigger] final(headers)@[old(headers)@.len() + i]).0@ == t[i].0
                && final(headers)@[old(headers)@.len() + i].1@ == t[i].1
            &&& final(raw_headers)@.len() == old(raw_headers)@.len() + r.len()
            &&& forall|i: int| 0 <= i < old(raw_headers)@.len() ==> #[trigger] final(raw_headers)@[i] == old(raw_headers)@[i]
            &&& forall|i: int| 0 <= i < r.len() ==> (#[trigger] final(raw_headers)@[old(raw_headers)@.len() + i]).0@ == r[i].0
                && final(raw_headers)@[old(raw_headers)@.len() + i].1@ == r[i].1
        }),
{
    match header_text(v.as_slice()) {
        Some(t) => headers.push((name, t)),
        None => {
            if header_bytes_valid(v.as_slice()) {
                raw_headers.push((name, v.clone()));
            }
        },
    }
}

/// The response for a file: its contents (empty for `HEAD`), its guessed content type (or
/// `application/octet-stream` when that cannot stand in a header), its length in bytes, and its
/// modification time when known.
pub fn file_response(file_path: &str, contents: Vec<u8>, len: u64, modified_secs: Option<u64>) -> (res: HttpResponse)
    requires
        modified_secs matches Some(s) ==> s < 253402300800,
    ensures
        res.status == 200,
        res.body@ == contents@,
        res.headers@.len() == if modified_secs matches Some(s) && valid_header_value(http_date_text(s)) { 3int } else { 2int },
        res.headers@[0].0@ == "content-type"@,
        res.headers@[0].1@ == if valid_header_value(mime_for_path(file_path@)) {
            mime_for_path(file_path@)
        } else {
            "application/octet-stream"@
        },
        res.headers@[1].0@ == "content-length"@,
        res.headers@[1].1@ == decimal(len as nat),
        modified_secs matches Some(s) ==> (valid_header_value(http_date_text(s)) ==> res.headers@[2].0@ == "last-modified"@
            && res.headers@[2].1@ == http_date_text(s)),
{
    let mime = guess_mime(file_path);
    let content_type = if header_value_is_valid(mime.as_str()) { mime } else { "application/octet-stream".to_owned() };
    let mut headers: Vec<(String, String)> = Vec::new();
    headers.push(("content-type".to_owned(), content_type));
    headers.push(("content-length".to_owned(), u64_to_string(len)));
    if let Some(s) = modified_secs {
        let date = http_date(s);
        if header_value_is_valid(date.as_str()) {
            headers.push(("last-modified".to_owned(), date));
        }
    }
    HttpResponse { status: 200, headers, raw_headers: Vec::new(), body: contents }
}

/// Where the answer to a `GET` or `HEAD` stands: which answer from the file system it waits for.
#[derive(Clone, Copy, Debug, PartialEq, Eq, Structural)]
pub enum GetStage {
    /// Whether the `k`-th favicon location exists.
    FaviconExists(usize),
    /// Whether the base path is a directory.
    BaseIsDir,
    /// Whether the `k`-th index file of the host exists in the base directory.
    IndexExists(usize),
    /// Whether the chosen path is a directory.
    ChosenIsDir,
    /// Whether the chosen path exists.
    ChosenExists,
    /// Whether the host's 404 page exists.
    ErrorPageExists,
    /// Nothing: the answer is known.
    Finished,
}

/// The state of answering a `GET` or `HEAD`: the stage, whether only headers are sent, the
/// document root, the base path, and the path chosen so far.
pub struct GetState {
    pub stage: GetStage,
    pub head_only: bool,
    pub root: String,
    pub base: String,
    pub path: String,
}

/// What the answer needs next, or the answer.
pub enum GetAction {
    /// Is this path a directory?
    IsDir(String),
    /// Does this path exist?
    Exists(String),
    /// Serve this file (headers only when the flag is set).
    Serve(String, bool),
    /// Answer with this response.
    Respond(HttpResponse),
}

/// An action as text; a response by its status (an error page).
pub enum ActionView {
    IsDir(Seq<char>),
    Exists(Seq<char>),
    Serve(Seq<char>, bool),
    Respond(u16),
}

/// An action matches its text: a response is the error page of its status (403 or 404).
pub open spec fn action_is(a: GetAction, v: ActionView) -> bool {
    match (a, v) {
        (GetAction::IsDir(p), ActionView::IsDir(q)) => p@ == q,
        (GetAction::Exists(p), ActionView::Exists(q)) => p@ == q,
        (GetAction::Serve(p, h), ActionView::Serve(q, k)) => p@ == q && h == k,
        (GetAction::Respond(r), ActionView::Respond(code)) => (code == 403 && is_error_response(r, 403,
            "You don't have permission to access this resource."@)) || (code == 404 && is_error_response(r, 404,
            "The requested resource could not be found."@)),
        _ => false,
    }
}

/// The places looked at for `/favicon.ico`, below the host's document root.
pub open spec fn favicon_candidate(root: Seq<char>, k: int) -> Seq<char> {
    join_path(root, if k == 0 { "favicon.ico"@ } else if k == 1 { "images/favicon.ico"@ } else if k == 2 {
        "img/favicon.ico"@ } else { "static/favicon.ico"@ })
}

/// The first stage and action for a `GET` or `HEAD` of `path` (which starts with `/`): the
/// favicon search for `/favicon.ico`; 403 for a path that holds `../` or `..\`; else the question
/// whether the base path below the document root (the location's, else the host's) is a
/// directory. Gives the stage, the document root, the base path and the action.
pub open spec fn get_first(vhost: VirtualHost, location: Option<Location>, path: Seq<char>) -> (GetStage, Seq<char>, Seq<char>, ActionView) {
    if path == "/favicon.ico"@ {
        (GetStage::FaviconExists(0), vhost.document_root@, vhost.document_root@, ActionView::Exists(favicon_candidate(vhost.document_root@, 0)))
    } else if spec_is_path_traversal(spec_sanitize_path(path)) {
        (GetStage::Finished, vhost.document_root@, vhost.document_root@, ActionView::Respond(403))
    } else {
        let root = match location {
            Some(l) => match l.root {
                Some(r) => r@,
                None => vhost.document_root@,
            },
            None => vhost.document_root@,
        };
        let base = join_path(root, spec_sanitize_path(path).skip(1));
        (GetStage::BaseIsDir, root, base, ActionView::IsDir(base))
    }
}

/// The next stage, chosen path and action, given the answer to the question the stage waited for.
pub open spec fn get_next(vhost: VirtualHost, stage: GetStage, head_only: bool, root: Seq<char>, base: Seq<char>, path: Seq<char>, answer: bool)
    -> (GetStage, Seq<char>, ActionView)
{
    let idx = vhost.index_files@;
    match stage {
        GetStage::FaviconExists(k) => if answer {
            (GetStage::Finished, favicon_candidate(root, k as int), ActionView::Serve(favicon_candidate(root, k as int), false))
        } else if k < 3 {
            (GetStage::FaviconExists((k + 1) as usize), path, ActionView::Exists(favicon_candidate(root, k + 1)))
        } else {
            (GetStage::Finished, path, ActionView::Respond(404))
        },
        GetStage::BaseIsDir => if answer && idx.len() > 0 {
            (GetStage::IndexExists(0), base, ActionView::Exists(join_path(base, idx[0]@)))
        } else {
            (GetStage::ChosenIsDir, base, ActionView::IsDir(base))
        },
        GetStage::IndexExists(k) => if answer && k < idx.len() {
            let chosen = join_path(base, idx[k as int]@);
            (GetStage::ChosenIsDir, chosen, ActionView::IsDir(chosen))
        } else if k + 1 < idx.len() {
            (GetStage::IndexExists((k + 1) as usize), base, ActionView::Exists(join_path(base, idx[k + 1]@)))
        } else {
            (GetStage::ChosenIsDir, base, ActionView::IsDir(base))
        },
        GetStage::ChosenIsDir => if answer {
            (GetStage::Finished, path, ActionView::Respond(403))
        } else {
            (GetStage::ChosenExists, path, ActionView::Exists(path))
        },
        GetStage::ChosenExists => if answer {
            (GetStage::Finished, path, ActionView::Serve(path, head_only))
        } else if vhost.error_pages@.contains_key(404u16) {
            let page = join_path(root, vhost.error_pages@[404u16]@);
            (GetStage::ErrorPageExists, page, ActionView::Exists(page))
        } else {
            (GetStage::Finished, path, ActionView::Respond(404))
        },
        GetStage::ErrorPageExists => if answer {
            (GetStage::Finished, path, ActionView::Serve(path, head_only))
        } else {
            (GetStage::Finished, path, ActionView::Respond(404))
        },
        GetStage::Finished => (GetStage::Finished, path, ActionView::Respond(404)),
    }
}

/// The first favicon location, from the `k`-th on, that `present` holds, if any.
pub open spec fn first_favicon_from(root: Seq<char>, present: spec_fn(Seq<char>) -> bool, k: int) -> Option<Seq<char>>
    decreases 4 - k,
{
    if k < 0 || k > 3 {
        None
    } else if present(favicon_candidate(root, k)) {
        Some(favicon_candidate(root, k))
    } else {
        first_favicon_from(root, present, k + 1)
    }
}

/// The first index file, from the `k`-th on, that exists in the directory `base`, if any.
pub open spec fn first_index_file(index_files: Seq<String>, base: Seq<char>, present: spec_fn(Seq<char>) -> bool, k: int) -> Option<Seq<char>>
    decreases index_files.len() - k,
{
    if k < 0 || k >= index_files.len() {
        None
    } else if present(join_path(base, index_files[k]@)) {
        Some(join_path(base, index_files[k]@))
    } else {
        first_index_file(index_files, base, present, k + 1)
    }
}

/// The answer once a path is chosen: 403 for a directory; the path when it exists; else the
/// host's 404 page when it has one and it exists; else 404.
pub open spec fn chosen_answer(vhost: VirtualHost, root: Seq<char>, chosen: Seq<char>, head_only: bool,
    is_dir: spec_fn(Seq<char>) -> bool, present: spec_fn(Seq<char>) -> bool) -> ActionView
{
    if is_dir(chosen) {
        ActionView::Respond(403)
    } else if present(chosen) {
        ActionView::Serve(chosen, head_only)
    } else if vhost.error_pages@.contains_key(404u16) && present(join_path(root, vhost.error_pages@[404u16]@)) {
        ActionView::Serve(join_path(root, vhost.error_pages@[404u16]@), head_only)
    } else {
        ActionView::Respond(404)
    }
}

/// The answer to a `GET` or `HEAD` of `path` on a file system described by `is_dir` and
/// `present`, in one pass: `/favicon.ico` is the first favicon location that exists (else 404); a
/// path that holds `../` or `..\` is refused with 403; else a directory stands for its first
/// existing index file, and the chosen path is answered as `chosen_answer` says.
pub open spec fn spec_get_answer(vhost: VirtualHost, location: Option<Location>, path: Seq<char>, head_only: bool,
    is_dir: spec_fn(Seq<char>) -> bool, present: spec_fn(Seq<char>) -> bool) -> ActionView
{
    let (_, root, base, _) = get_first(vhost, location, path);
    if path == "/favicon.ico"@ {
        match first_favicon_from(vhost.document_root@, present, 0) {
            Some(p) => ActionView::Serve(p, false),
            None => ActionView::Respond(404),
        }
    } else if spec_is_path_traversal(spec_sanitize_path(path)) {
        ActionView::Respond(403)
    } else {
        let chosen = if is_dir(base) {
            match first_index_file(vhost.index_files@, base, present, 0) {
                Some(p) => p,
                None => base,
            }
        } else {
            base
        };
        chosen_answer(vhost, root, chosen, head_only, is_dir, present)
    }
}

/// The answer reached by taking steps from a stage and its pending action, answering every
/// question from `is_dir` and `present`, within `fuel` steps; `None` when the steps run out.
pub open spec fn drive_get(vhost: VirtualHost, stage: GetStage, head_only: bool, root: Seq<char>, base: Seq<char>, path: Seq<char>,
    action: ActionView, is_dir: spec_fn(Seq<char>) -> bool, present: spec_fn(Seq<char>) -> bool, fuel: nat) -> Option<ActionView>
    decreases fuel,
{
    if fuel == 0 {
        None
    } else {
        match action {
            ActionView::IsDir(p) => {
                let (s, pa, a) = get_next(vhost, stage, head_only, root, base, path, is_dir(p));
                drive_get(vhost, s, head_only, root, base, pa, a, is_dir, present, (fuel - 1) as nat)
            },
            ActionView::Exists(p) => {
                let (s, pa, a) = get_next(vhost, stage, head_only, root, base, path, present(p));
                drive_get(vhost, s, head_only, root, base, pa, a, is_dir, present, (fuel - 1) as nat)
            },
            _ => Some(action),
        }
    }
}

proof fn lemma_drive_chosen_answer(vhost: VirtualHost, head_only: bool, root: Seq<char>, base: Seq<char>, chosen: Seq<char>,
    is_dir: spec_fn(Seq<char>) -> bool, present: spec_fn(Seq<char>) -> bool, fuel: nat)
    requires
        fuel >= 4,
    ensures
        drive_get(vhost, GetStage::ChosenIsDir, head_only, root, base, chosen, ActionView::IsDir(chosen), is_dir, present, fuel)
            == Some(chosen_answer(vhost, root, chosen, head_only, is_dir, present)),
{
    let f1 = (fuel - 1) as nat;
    let f2 = (fuel - 2) as nat;
    let f3 = (fuel - 3) as nat;
    if !is_dir(chosen) {
        assert(drive_get(vhost, GetStage::ChosenIsDir, head_only, root, base, chosen, ActionView::IsDir(chosen), is_dir, present, fuel)
            == drive_get(vhost, GetStage::ChosenExists, head_only, root, base, chosen, ActionView::Exists(chosen), is_dir, present, f1));
    }
    if is_dir(chosen) {
        assert(drive_get(vhost, GetStage::Finished, head_only, root, base, chosen, ActionView::Respond(403), is_dir, present, f1)
            == Some(ActionView::Respond(403)));
    } else if present(chosen) {
        assert(drive_get(vhost, GetStage::Finished, head_only, root, base, chosen, ActionView::Serve(chosen, head_only), is_dir, present, f2)
            == Some(ActionView::Serve(chosen, head_only)));
    } else if vhost.error_pages@.contains_key(404u16) {
        let page = join_path(root, vhost.error_pages@[404u16]@);
        let last = if present(page) { ActionView::Serve(page, head_only) } else { ActionView::Respond(404) };
        assert(drive_get(vhost, GetStage::Finished, head_only, root, base, page, last, is_dir, present, f3) == Some(last));
        assert(drive_get(vhost, GetStage::ErrorPageExists, head_only, root, base, page, ActionView::Exists(page), is_dir, present, f2)
            == Some(last));
    } else {
        assert(drive_get(vhost, GetStage::Finished, head_only, root, base, chosen, ActionView::Respond(404), is_dir, present, f2)
            == Some(ActionView::Respond(404)));
    }
}

proof fn lemma_drive_index_probe(vhost: VirtualHost, head_only: bool, root: Seq<char>, base: Seq<char>,
    is_dir: spec_fn(Seq<char>) -> bool, present: spec_fn(Seq<char>) -> bool, k: usize, fuel: nat)
    requires
        k < vhost.index_files@.len(),
        fuel >= vhost.index_files@.len() - k + 4,
    ensures
        ({
            let chosen = match first_index_file(vhost.index_files@, base, present, k as int) {
                Some(p) => p,
                None => base,
            };
            drive_get(vhost, GetStage::IndexExists(k), head_only, root, base, base,
                ActionView::Exists(join_path(base, vhost.index_files@[k as int]@)), is_dir, present, fuel)
                == Some(chosen_answer(vhost, root, chosen, head_only, is_dir, present))
        }),
    decreases vhost.index_files@.len() - k,
{
    let idx = vhost.index_files@;
    assert(idx.len() == vhost.index_files.len());
    let f1 = (fuel - 1) as nat;
    let probe = join_path(base, idx[k as int]@);
    if present(probe) {
        lemma_drive_chosen_answer(vhost, head_only, root, base, probe, is_dir, present, f1);
    } else if k + 1 < idx.len() {
        lemma_drive_index_probe(vhost, head_only, root, base, is_dir, present, (k + 1) as usize, f1);
    } else {
        assert(first_index_file(idx, base, present, k + 1) is None);
        lemma_drive_chosen_answer(vhost, head_only, root, base, base, is_dir, present, f1);
    }
}

proof fn lemma_drive_favicon(vhost: VirtualHost, head_only: bool, root: Seq<char>, path: Seq<char>,
    is_dir: spec_fn(Seq<char>) -> bool, present: spec_fn(Seq<char>) -> bool, k: usize, fuel: nat)
    requires
        k <= 3,
        fuel >= 5 - k,
    ensures
        drive_get(vhost, GetStage::FaviconExists(k), head_only, root, root, path, ActionView::Exists(favicon_candidate(root, k as int)),
            is_dir, present, fuel)
            == Some(match first_favicon_from(root, present, k as int) {
                Some(p) => ActionView::Serve(p, false),
                None => ActionView::Respond(404),
            }),
    decreases 3 - k,
{
    let f1 = (fuel - 1) as nat;
    let c = favicon_candidate(root, k as int);
    if present(c) {
        assert(drive_get(vhost, GetStage::Finished, head_only, root, root, c, ActionView::Serve(c, false), is_dir, present, f1)
            == Some(ActionView::Serve(c, false)));
    } else if k < 3 {
        lemma_drive_favicon(vhost, head_only, root, path, is_dir, present, (k + 1) as usize, f1);
    } else {
        assert(first_favicon_from(root, present, 4) is None);
        assert(drive_get(vhost, GetStage::Finished, head_only, root, root, path, ActionView::Respond(404), is_dir, present, f1)
            == Some(ActionView::Respond(404)));
    }
}

/// Taking the steps of a `GET` or `HEAD` from its first action, answering every question from a
/// file system, ends within as many steps as the host has index files plus six at the answer
/// `spec_get_answer` gives: the steps decide as one pass over the file system would.
pub proof fn get_answers_as_one_pass(vhost: VirtualHost, location: Option<Location>, path: Seq<char>, head_only: bool,
    is_dir: spec_fn(Seq<char>) -> bool, present: spec_fn(Seq<char>) -> bool)
    ensures
        ({
            let (stage, root, base, action) = get_first(vhost, location, path);
            drive_get(vhost, stage, head_only, root, base, base, action, is_dir, present, (vhost.index_files@.len() + 6) as nat)
                == Some(spec_get_answer(vhost, location, path, head_only, is_dir, present))
        }),
{
    let (stage, root, base, action) = get_first(vhost, location, path);
    let n = vhost.index_files@.len();
    let fuel = (n + 6) as nat;
    let f1 = (fuel - 1) as nat;
    if path == "/favicon.ico"@ {
        lemma_drive_favicon(vhost, head_only, root, base, is_dir, present, 0, fuel);
    } else if spec_is_path_traversal(spec_sanitize_path(path)) {
    } else if is_dir(base) && n > 0 {
        lemma_drive_index_probe(vhost, head_only, root, base, is_dir, present, 0, f1);
    } else {
        if is_dir(base) {
            assert(first_index_file(vhost.index_files@, base, present, 0) is None);
        }
        lemma_drive_chosen_answer(vhost, head_only, root, base, base, is_dir, present, f1);
    }
}

fn favicon_path(root: &str, k: usize) -> (res: String)
    ensures
        res@ == favicon_candidate(root@, k as int),
{
    let rel = if k == 0 { "favicon.ico" } else if k == 1 { "images/favicon.ico" } else if k == 2 {
        "img/favicon.ico" } else { "static/favicon.ico" };
    join_path_text(root, rel)
}

/// Starts answering a `GET` (or, with `head_only`, a `HEAD`) of `path` for a host and location
/// (see `get_first`).
pub fn handle_get_start(head_only: bool, path: &str, vhost: &VirtualHost, location: Option<&Location>) -> (res: (GetState, GetAction))
    requires
        path@.len() > 0,
        path@[0] == '/',
    ensures
        ({
            let loc = match location { Some(l) => Some(*l), None => None };
            let (stage, root, base, action) = get_first(*vhost, loc, path@);
            &&& res.0.stage == stage
            &&& res.0.head_only == head_only
            &&& res.0.root@ == root
            &&& res.0.base@ == base
            &&& res.0.path@ == base
            &&& action_is(res.1, action)
        }),
{
    let p = chars_of(path);
    if chars_eq(&p, &chars_of("/favicon.ico")) {
        let root = vhost.document_root.clone();
        let first = favicon_path(root.as_str(), 0);
        let state = GetState { stage: GetStage::FaviconExists(0), head_only, root: root.clone(), base: root.clone(), path: root };
        return (state, GetAction::Exists(first));
    }
    let sanitized = sanitize_path(path);
    if is_path_traversal(sanitized.as_str()) {
        let root = vhost.document_root.clone();
        let state = GetState { stage: GetStage::Finished, head_only, root: root.clone(), base: root.clone(), path: root };
        return (state, GetAction::Respond(forbidden()));
    }
    proof { sanitized_path_keeps_leading_slash(path@); }
    let chars = chars_of(sanitized.as_str());
    let mut rest: Vec<char> = Vec::new();
    for i in 1..chars.len()
        invariant
            1 <= chars@.len(),
            rest@ == chars@.subrange(1, i as int),
    {
        rest.push(chars[i]);
        assert(rest@ == chars@.subrange(1, i + 1));
    }
    assert(rest@ == sanitized@.skip(1));
    let root: String = match location {
        Some(l) => match &l.root {
            Some(r) => r.clone(),
            None => vhost.document_root.clone(),
        },
        None => vhost.document_root.clone(),
    };
    let base = join_path_text(root.as_str(), string_of(&rest).as_str());
    let state = GetState { stage: GetStage::BaseIsDir, head_only, root, base: base.clone(), path: base.clone() };
    (state, GetAction::IsDir(base))
}

/// Takes the answer to the last question and gives the next state and action (see `get_next`):
/// the first favicon found is served; a directory is served through its first existing index
/// file and refused with 403 otherwise; a missing file is answered with the host's 404 page when
/// it exists, else with 404.
pub fn handle_get_step(state: GetState, answer: bool, vhost: &VirtualHost) -> (res: (GetState, GetAction))
    ensures
        ({
            let (stage, path, action) = get_next(*vhost, state.stage, state.head_only, state.root@, state.base@, state.path@, answer);
            &&& res.0.stage == stage
            &&& res.0.head_only == state.head_only
            &&& res.0.root@ == state.root@
            &&& res.0.base@ == state.base@
            &&& res.0.path@ == path
            &&& action_is(res.1, action)
        }),
{
    let GetState { stage, head_only, root, base, path } = state;
    let n = vhost.index_files.len();
    match stage {
        GetStage::FaviconExists(k) => {
            if answer {
                let found = favicon_path(root.as_str(), k);
                let served = found.clone();
                (GetState { stage: GetStage::Finished, head_only, root, base, path: found }, GetAction::Serve(served, false))
            } else if k < 3 {
                let next = favicon_path(root.as_str(), k + 1);
                (GetState { stage: GetStage::FaviconExists(k + 1), head_only, root, base, path }, GetAction::Exists(next))
            } else {
                (GetState { stage: GetStage::Finished, head_only, root, base, path }, GetAction::Respond(not_found()))
            }
        },
        GetStage::BaseIsDir => {
            if answer && n > 0 {
                let q = join_path_text(base.as_str(), vhost.index_files[0].as_str());
                let p = base.clone();
                (GetState { stage: GetStage::IndexExists(0), head_only, root, base, path: p }, GetAction::Exists(q))
            } else {
                let q = base.clone();
                let p = base.clone();
                (GetState { stage: GetStage::ChosenIsDir, head_only, root, base, path: p }, GetAction::IsDir(q))
            }
        },
        GetStage::IndexExists(k) => {
            if answer && k < n {
                let chosen = join_path_text(base.as_str(), vhost.index_files[k].as_str());
                let q = chosen.clone();
                (GetState { stage: GetStage::ChosenIsDir, head_only, root, base, path: chosen }, GetAction::IsDir(q))
            } else if k < n && k + 1 < n {
                let q = join_path_text(base.as_str(), vhost.index_files[k + 1].as_str());
                let p = base.clone();
                (GetState { stage: GetStage::IndexExists(k + 1), head_only, root, base, path: p }, GetAction::Exists(q))
            } else {
                let q = base.clone();
                let p = base.clone();
                (GetState { stage: GetStage::ChosenIsDir, head_only, root, base, path: p }, GetAction::IsDir(q))
            }
        },
        GetStage::ChosenIsDir => {
            if answer {
                (GetState { stage: GetStage::Finished, head_only, root, base, path }, GetAction::Respond(forbidden()))
            } else {
                let q = path.clone();
                (GetState { stage: GetStage::ChosenExists, head_only, root, base, path }, GetAction::Exists(q))
            }
        },
        GetStage::ChosenExists => {
            if answer {
                let q = path.clone();
                (GetState { stage: GetStage::Finished, head_only, root, base, path }, GetAction::Serve(q, head_only))
            } else {
                match vhost.get_error_page(404) {
                    Some(page) => {
                        let p = join_path_text(root.as_str(), page.as_str());
                        let q = p.clone();
                        (GetState { stage: GetStage::ErrorPageExists, head_only, root, base, path: p }, GetAction::Exists(q))
                    },
                    None => (GetState { stage: GetStage::Finished, head_only, root, base, path }, GetAction::Respond(not_found())),
                }
            }
        },
        GetStage::ErrorPageExists => {
            if answer {
                let q = path.clone();
                (GetState { stage: GetStage::Finished, head_only, root, base, path }, GetAction::Serve(q, head_only))
            } else {
                (GetState { stage: GetStage::Finished, head_only, root, base, path }, GetAction::Respond(not_found()))
            }
        },
        GetStage::Finished => {
            (GetState { stage: GetStage::Finished, head_only, root, base, path }, GetAction::Respond(not_found()))
        },
    }
}

} // verus!
