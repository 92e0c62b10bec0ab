use vstd::prelude::*;
use vstd::string::StringExecFns;
use crate::message::{first_header, header_text, request_header, spec_header_text, HttpRequest};
use crate::text::{decimal, u64_to_string};

verus! {

/// A request header's text for the access log: its text, or `-` when it is absent or not text.
pub open spec fn log_header(req: HttpRequest, name: Seq<char>) -> Seq<char> {
    match request_header(req.headers@, name) {
        Some(b) => match spec_header_text(b) {
            Some(t) => t,
            None => "-"@,
        },
        None => "-"@,
    }
}

/// A request header's text for the access log (see `log_header`).
pub fn header_or_dash(req: &HttpRequest, name: &str) -> (res: String)
    ensures
        res@ == log_header(*req, name@),
{
    match first_header(&req.headers, name) {
        Some(b) => match header_text(b.as_slice()) {
            Some(t) => t,
            None => "-".to_owned(),
        },
        None => "-".to_owned(),
    }
}

/// Where a logged request also goes to the console.
#[derive(Clone, Copy, Debug, PartialEq, Eq, Structural)]
pub enum ConsoleLevel {
    /// Not to the console.
    Quiet,
    /// As information: client errors.
    Info,
    /// As an error: server errors.
    Error,
}

/// The console level of a status: 400 to 499 as information, 500 and above as errors.
pub fn console_level(status: u16) -> (res: ConsoleLevel)
    ensures
        res == if status >= 500 { ConsoleLevel::Error } else if status >= 400 { ConsoleLevel::Info } else { ConsoleLevel::Quiet },
{
    if status >= 400 {
        if status < 500 {
            ConsoleLevel::Info
        } else {
            ConsoleLevel::Error
        }
    } else {
        ConsoleLevel::Quiet
    }
}

/// The access log line of a request:
/// `client - - [time] "method uri version" status bytes ms ms "referer" "user-agent"`.
pub open spec fn access_line(
    client: Seq<char>, time: Seq<char>, method: Seq<char>, uri: Seq<char>, version: Seq<char>, status: u16,
    bytes_sent: u64, ms: Seq<char>, referer: Seq<char>, user_agent: Seq<char>,
) -> Seq<char> {
    client + " - - ["@ + time + "] \""@ + method + " "@ + uri + " "@ + version + "\" "@ + decimal(status as nat) + " "@
        + decimal(bytes_sent as nat) + " "@ + ms + " ms \""@ + referer + "\" \""@ + user_agent + "\""@
}

/// The access log line of a request, from its parts as text (the time and the milliseconds
/// already formatted).
pub fn access_log_line(
    client: &str, time: &str, method: &str, uri: &str, version: &str, status: u16, bytes_sent: u64, ms: &str,
    referer: &str, user_agent: &str,
) -> (res: String)
    ensures
        res@ == access_line(client@, time@, method@, uri@, version@, status, bytes_sent, ms@, referer@, user_agent@),
{
    let mut line = client.to_owned();
    line.append(" - - [");
    line.append(time);
    line.append("] \"");
    line.append(method);
    line.append(" ");
    line.append(uri);
    line.append(" ");
    line.append(version);
    line.append("\" ");
    line.append(u64_to_string(status as u64).as_str());
    line.append(" ");
    line.append(u64_to_string(bytes_sent).as_str());
    line.append(" ");
    line.append(ms);
    line.append(" ms \"");
    line.append(referer);
    line.append("\" \"");
    line.append(user_agent);
    line.append("\"");
    line
}

/// The error log entry: `[time] [error] [client c] request: message`, a newline, and the error's
/// debug text.
pub open spec fn error_entry(time: Seq<char>, client: Seq<char>, request: Seq<char>, message: Seq<char>, debug: Seq<char>) -> Seq<char> {
    "["@ + time + "] [error] [client "@ + client + "] "@ + request + ": "@ + message + "\n"@ + debug
}

/// The error log entry of an error (see `error_entry`); the client is `unknown` when not known,
/// the request `No request info` when there is none.
pub fn error_log_entry(time: &str, client: Option<&str>, request: Option<&str>, message: &str, debug: &str) -> (res: String)
    ensures
        res@ == error_entry(
            time@,
            match client { Some(c) => c@, None => "unknown"@ },
            match request { Some(r) => r@, None => "No request info"@ },
            message@,
            debug@,
        ),
{
    let mut line = "[".to_owned();
    line.append(time);
    line.append("] [error] [client ");
    match client {
        Some(c) => line.append(c),
        None => line.append("unknown"),
    }
    line.append("] ");
    match request {
        Some(r) => line.append(r),
        None => line.append("No request info"),
    }
    line.append(": ");
    line.append(message);
    line.append("\n");
    line.append(debug);
    line
}

} // verus!
