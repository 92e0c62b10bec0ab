use vstd::prelude::*;
use vstd::string::StringExecFns;
use vstd::utf8::encode_utf8;
use crate::message::{header_value_is_valid, opt_text, text_body, valid_header_value, HttpResponse};
use crate::text::{decimal, u64_to_string};

verus! {

/// The reason phrase `http::StatusCode::canonical_reason` gives for a status code, if it has one.
pub uninterp spec fn canonical_reason(code: u16) -> Option<Seq<char>>;

/// `StatusCode::from_u16(code)` then `canonical_reason()`. Claims that the result is the named
/// `canonical_reason` of the code.
#[verifier::external_body]
fn reason_phrase(code: u16) -> (res: Option<String>)
    requires
        100 <= code <= 999,
    ensures
        opt_text(res) == canonical_reason(code),
{
    http::StatusCode::from_u16(code).ok()?.canonical_reason().map(str::to_string)
}

/// The text shown for a status: its reason phrase, else `Error`.
pub open spec fn status_text(code: u16) -> Seq<char> {
    match canonical_reason(code) {
        Some(r) => r,
        None => "Error"@,
    }
}

/// The page up to the title.
pub open spec fn page_start() -> Seq<char> {
    "<!DOCTYPE html>\n<html>\n<head>\n    <meta charset=\"UTF-8\">\n    <meta name=\"viewport\" content=\"width=device-width, initial-scale=1.0\">\n    <title>"@
}

/// The page from the end of the title to the heading: the style sheet.
pub open spec fn page_style() -> Seq<char> {
    "</title>\n    <style>\n        body {\n            font-family: Arial, sans-serif;\n            line-height: 1.6;\n            color: #333;\n            max-width: 650px;\n            margin: 0 auto;\n            padding: 1rem;\n        }\n        .error-container {\n            margin-top: 3rem;\n            border: 1px solid #ddd;\n            border-radius: 4px;\n            padding: 2rem;\n            text-align: center;\n        }\n        h1 {\n            margin-top: 0;\n            color: #e74c3c;\n        }\n        .status {\n            font-size: 1.2rem;\n            color: #7f8c8d;\n            margin-bottom: 1.5rem;\n        }\n        .message {\n            font-size: 1.1rem;\n        }\n        .footer {\n            margin-top: 2rem;\n            font-size: 0.8rem;\n            color: #95a5a6;\n        }\n    </style>\n</head>\n<body>\n    <div class=\"error-container\">\n        <h1>"@
}

/// The page from the end of the heading to the status code line.
pub open spec fn page_status() -> Seq<char> {
    "</h1>\n        <div class=\"status\">Status Code: "@
}

/// The page from the status code to the message.
pub open spec fn page_message() -> Seq<char> {
    "</div>\n        <div class=\"message\">"@
}

/// The page after the message.
pub open spec fn page_end() -> Seq<char> {
    "</div>\n        <div class=\"footer\">Rust Web Server</div>\n    </div>\n</body>\n</html>"@
}

/// The HTML error page for a status: its code and text in the title and heading, the code on a
/// line of its own, then the message.
pub open spec fn error_page(code: u16, message: Seq<char>) -> Seq<char> {
    let c = decimal(code as nat);
    let t = status_text(code);
    page_start() + c + " "@ + t + page_style() + c + " "@ + t + page_status() + c + page_message() + message + page_end()
}

/// The HTML error page for a status code and message.
pub fn html_error_page(code: u16, message: &str) -> (res: String)
    requires
        100 <= code <= 999,
    ensures
        res@ == error_page(code, message@),
{
    let c = u64_to_string(code as u64);
    let t = match reason_phrase(code) {
        Some(r) => r,
        None => "Error".to_owned(),
    };
    let mut page = "<!DOCTYPE html>\n<html>\n<head>\n    <meta charset=\"UTF-8\">\n    <meta name=\"viewport\" content=\"width=device-width, initial-scale=1.0\">\n    <title>".to_owned();
    page.append(c.as_str());
    page.append(" ");
    page.append(t.as_str());
    page.append("</title>\n    <style>\n        body {\n            font-family: Arial, sans-serif;\n            line-height: 1.6;\n            color: #333;\n            max-width: 650px;\n            margin: 0 auto;\n            padding: 1rem;\n        }\n        .error-container {\n            margin-top: 3rem;\n            border: 1px solid #ddd;\n            border-radius: 4px;\n            padding: 2rem;\n            text-align: center;\n        }\n        h1 {\n            margin-top: 0;\n            color: #e74c3c;\n        }\n        .status {\n            font-size: 1.2rem;\n            color: #7f8c8d;\n            margin-bottom: 1.5rem;\n        }\n        .message {\n            font-size: 1.1rem;\n        }\n        .footer {\n            margin-top: 2rem;\n            font-size: 0.8rem;\n            color: #95a5a6;\n        }\n    </style>\n</head>\n<body>\n    <div class=\"error-container\">\n        <h1>");
    page.append(c.as_str());
    page.append(" ");
    page.append(t.as_str());
    page.append("</h1>\n        <div class=\"status\">Status Code: ");
    page.append(c.as_str());
    page.append("</div>\n        <div class=\"message\">");
    page.append(message);
    page.append("</div>\n        <div class=\"footer\">Rust Web Server</div>\n    </div>\n</body>\n</html>");
    page
}

/// An error response: the status, `content-type: text/html; charset=utf-8`, and the error page.
pub open spec fn is_error_response(r: HttpResponse, code: u16, message: Seq<char>) -> bool {
    &&& r.status == code
    &&& r.body@ == encode_utf8(error_page(code, message))
    &&& r.headers@.len() >= 1
    &&& r.headers@[0].0@ == "content-type"@
    &&& r.headers@[0].1@ == "text/html; charset=utf-8"@
}

/// The error response for a status and message.
pub fn error_response(code: u16, message: &str) -> (res: HttpResponse)
    requires
        100 <= code <= 999,
    ensures
        is_error_response(res, code, message@),
        res.headers@.len() == 1,
{
    let page = html_error_page(code, message);
    let mut headers: Vec<(String, String)> = Vec::new();
    headers.push(("content-type".to_owned(), "text/html; charset=utf-8".to_owned()));
    HttpResponse { status: code, headers, raw_headers: Vec::new(), body: text_body(page.as_str()) }
}

/// 400 Bad Request.
pub fn bad_request() -> (res: HttpResponse)
    ensures
        is_error_response(res, 400, "The server could not understand the request due to invalid syntax."@),
        res.headers@.len() == 1,
{
    error_response(400, "The server could not understand the request due to invalid syntax.")
}

/// 401 Unauthorized, asking for Basic authentication in realm `restricted`.
pub fn unauthorized() -> (res: HttpResponse)
    ensures
        is_error_response(res, 401, "Authentication is required and has failed or has not been provided."@),
        res.headers@.len() == 2,
        res.headers@[1].0@ == "www-authenticate"@,
        res.headers@[1].1@ == "Basic realm=\"restricted\""@,
{
    let mut r = error_response(401, "Authentication is required and has failed or has not been provided.");
    r.headers.push(("www-authenticate".to_owned(), "Basic realm=\"restricted\"".to_owned()));
    r
}

/// 403 Forbidden.
pub fn forbidden() -> (res: HttpResponse)
    ensures
        is_error_response(res, 403, "You don't have permission to access this resource."@),
        res.headers@.len() == 1,
{
    error_response(403, "You don't have permission to access this resource.")
}

/// 404 Not Found.
pub fn not_found() -> (res: HttpResponse)
    ensures
        is_error_response(res, 404, "The requested resource could not be found."@),
        res.headers@.len() == 1,
{
    error_response(404, "The requested resource could not be found.")
}

/// The methods joined with `, `.
pub open spec fn joined(items: Seq<Seq<char>>) -> Seq<char>
    decreases items.len(),
{
    if items.len() == 0 {
        Seq::empty()
    } else if items.len() == 1 {
        items[0]
    } else {
        joined(items.drop_last()) + ", "@ + items.last()
    }
}

/// The texts of string slices.
pub open spec fn str_texts(v: Seq<&str>) -> Seq<Seq<char>> {
    v.map_values(|s: &str| s@)
}

/// 405 Method Not Allowed, with the allowed methods joined with `, ` (or `GET, HEAD` when that
/// cannot stand in a header).
pub fn method_not_allowed(allowed: &[&str]) -> (res: HttpResponse)
    ensures
        is_error_response(res, 405, "The request method is not supported for this resource."@),
        res.headers@.len() == 2,
        res.headers@[1].0@ == "allow"@,
        res.headers@[1].1@ == if valid_header_value(joined(str_texts(allowed@))) {
            joined(str_texts(allowed@))
        } else {
            "GET, HEAD"@
        },
{
    let mut r = error_response(405, "The request method is not supported for this resource.");
    let mut allow = String::new();
    for i in 0..allowed.len()
        invariant
            allow@ == joined(str_texts(allowed@.take(i as int))),
    {
        assert(allowed@.take(i + 1).drop_last() == allowed@.take(i as int));
        assert(str_texts(allowed@.take(i + 1)).drop_last() == str_texts(allowed@.take(i as int)));
        if i > 0 {
            allow.append(", ");
        }
        allow.append(allowed[i]);
    }
    assert(allowed@.take(allowed@.len() as int) == allowed@);
    let value = if header_value_is_valid(allow.as_str()) { allow } else { "GET, HEAD".to_owned() };
    r.headers.push(("allow".to_owned(), value));
    r
}

/// 408 Request Timeout.
pub fn request_timeout() -> (res: HttpResponse)
    ensures
        is_error_response(res, 408, "The server timed out waiting for the request."@),
        res.headers@.len() == 1,
{
    error_response(408, "The server timed out waiting for the request.")
}

/// 413 Payload Too Large.
pub fn payload_too_large() -> (res: HttpResponse)
    ensures
        is_error_response(res, 413, "The request entity is larger than limits defined by server."@),
        res.headers@.len() == 1,
{
    error_response(413, "The request entity is larger than limits defined by server.")
}

/// 429 Too Many Requests, with `retry-after` in seconds.
pub fn too_many_requests(retry_after: u64) -> (res: HttpResponse)
    ensures
        is_error_response(res, 429, "Too many requests, please try again later."@),
        res.headers@.len() == 2,
        res.headers@[1].0@ == "retry-after"@,
        res.headers@[1].1@ == decimal(retry_after as nat),
{
    let mut r = error_response(429, "Too many requests, please try again later.");
    r.headers.push(("retry-after".to_owned(), u64_to_string(retry_after)));
    r
}

/// 500 Internal Server Error.
pub fn internal_server_error() -> (res: HttpResponse)
    ensures
        is_error_response(res, 500, "The server encountered an internal error and was unable to complete your request."@),
        res.headers@.len() == 1,
{
    error_response(500, "The server encountered an internal error and was unable to complete your request.")
}

/// 502 Bad Gateway.
pub fn bad_gateway() -> (res: HttpResponse)
    ensures
        is_error_response(res, 502, "The server received an invalid response from an upstream server."@),
        res.headers@.len() == 1,
{
    error_response(502, "The server received an invalid response from an upstream server.")
}

/// 503 Service Unavailable, with `retry-after` when given.
pub fn service_unavailable(retry_after: Option<u64>) -> (res: HttpResponse)
    ensures
        is_error_response(res, 503, "The server is currently unavailable. Please try again later."@),
        match retry_after {
            Some(s) => res.headers@.len() == 2 && res.headers@[1].0@ == "retry-after"@ && res.headers@[1].1@ == decimal(s as nat),
            None => res.headers@.len() == 1,
        },
{
    let mut r = error_response(503, "The server is currently unavailable. Please try again later.");
    if let Some(s) = retry_after {
        r.headers.push(("retry-after".to_owned(), u64_to_string(s)));
    }
    r
}

/// 504 Gateway Timeout.
pub fn gateway_timeout() -> (res: HttpResponse)
    ensures
        is_error_response(res, 504, "The server was acting as a gateway or proxy and did not receive a timely response from the upstream server."@),
        res.headers@.len() == 1,
{
    error_response(504, "The server was acting as a gateway or proxy and did not receive a timely response from the upstream server.")
}

} // verus!
