use vstd::prelude::*;
use crate::message::{header_text, spec_header_text, text_body, HttpRequest, HttpResponse};
use vstd::utf8::encode_utf8;
use crate::net::{parse_ipv4_cidr, parse_ipv6_cidr, ipv4_cidr_parse, ipv6_cidr_parse, range_contains, IpAddress, IpRange};
use crate::pattern::{compile_pattern, pattern_is_match, regex_compiles, regex_error_text, regex_is_match, CompiledPattern};
use crate::security::rate_limiter::{get_client_ip, spec_client_ip};
use crate::text::{chars_of, lemma_string_set_push, string_of, string_set};
use vstd::string::StringExecFns;

verus! {

/// The patterns of common attacks (SQL injection, XSS, file inclusion, command injection).
pub open spec fn attack_pattern_sources() -> Seq<Seq<char>> {
    seq![
        r"(?i)(\%27)|(')|(--)|(%23)|(#)|(%3B)|(;)"@,
        r"(?i)(select\s+)|(\s+union\s+)|(\s+insert\s+)|(\s+drop\s+)|(\s+update\s+)|(\s+delete\s+)"@,
        r"(?i)<script.*?>"@,
        r"(?i)on\w+\s*="@,
        r"(?i)javascript\s*:"@,
        r"(?i)(/etc/passwd)|(/etc/shadow)|(/proc/self/environ)|(wp-config\.php)"@,
        r"(?i)(\.\./)|(\.\.\\)"@,
        r"(?i)(\|\s*\w+)|(\&\s*\w+)|(;\s*\w+)|(system\s*\()|(exec\s*\()"@,
    ]
}

/// Firewall rules: blocked addresses and networks, allowed methods, blocked paths and path
/// patterns, and whether requests are screened for attack patterns.
#[derive(Debug)]
pub struct Firewall {
    blocked_ips: Vec<IpAddress>,
    blocked_ip_ranges: Vec<IpRange>,
    allowed_methods: Vec<String>,
    blocked_paths: Vec<String>,
    blocked_path_patterns: Vec<CompiledPattern>,
    attack_patterns: Vec<CompiledPattern>,
    detect_attacks: bool,
}

/// The rules of a firewall as sets and sequences.
pub struct FirewallView {
    pub blocked_ips: Set<IpAddress>,
    pub blocked_ranges: Seq<IpRange>,
    pub allowed_methods: Set<Seq<char>>,
    pub blocked_paths: Set<Seq<char>>,
    pub path_patterns: Seq<Seq<char>>,
    pub attack_patterns: Seq<Seq<char>>,
    pub detect_attacks: bool,
}

/// The network a CIDR text names: IPv4 when it holds a dot, else IPv6; `None` when it does not
/// parse.
pub open spec fn cidr_range(cidr: Seq<char>) -> Option<IpRange> {
    if cidr.contains('.') {
        match ipv4_cidr_parse(cidr) {
            Some((net, len)) => Some(IpRange::V4 { network: net, len }),
            None => None,
        }
    } else {
        match ipv6_cidr_parse(cidr) {
            Some((net, len)) => Some(IpRange::V6 { network: net, len }),
            None => None,
        }
    }
}

/// The patterns of a sequence of compiled expressions.
pub open spec fn pattern_sources(v: Seq<CompiledPattern>) -> Seq<Seq<char>> {
    Seq::new(v.len(), |i: int| v[i].source())
}

impl View for Firewall {
    type V = FirewallView;

    closed spec fn view(&self) -> FirewallView {
        FirewallView {
            blocked_ips: Set::new(|ip: IpAddress| exists|i: int| 0 <= i < self.blocked_ips@.len() && self.blocked_ips@[i] == ip),
            blocked_ranges: self.blocked_ip_ranges@,
            allowed_methods: string_set(self.allowed_methods@),
            blocked_paths: string_set(self.blocked_paths@),
            path_patterns: pattern_sources(self.blocked_path_patterns@),
            attack_patterns: pattern_sources(self.attack_patterns@),
            detect_attacks: self.detect_attacks,
        }
    }
}

/// Some pattern of `patterns` matches `text`.
pub open spec fn any_match(patterns: Seq<Seq<char>>, text: Seq<char>) -> bool {
    exists|i: int| 0 <= i < patterns.len() && regex_is_match(#[trigger] patterns[i], text)
}

/// Some header value of the request is visible ASCII and matches an attack pattern.
pub open spec fn header_attack(patterns: Seq<Seq<char>>, headers: Seq<(String, Vec<u8>)>) -> bool {
    exists|i: int| 0 <= i < headers.len() && match spec_header_text(#[trigger] headers[i].1@) {
        Some(t) => any_match(patterns, t),
        None => false,
    }
}

/// The address lies in one of the networks.
pub open spec fn in_ranges(ranges: Seq<IpRange>, ip: IpAddress) -> bool {
    exists|i: int| 0 <= i < ranges.len() && range_contains(#[trigger] ranges[i], ip)
}

/// The status with which a firewall refuses a request, if it does: 403 for a blocked client
/// address or network, 405 for a method not allowed, 403 for a blocked path or a path matching a
/// blocked pattern, 400 when attack screening is on and the URI or a header value matches an
/// attack pattern; checked in that order.
pub open spec fn spec_should_block(fw: FirewallView, req: HttpRequest) -> Option<u16> {
    let ip = spec_client_ip(req);
    if ip is Some && (fw.blocked_ips.contains(ip.unwrap()) || in_ranges(fw.blocked_ranges, ip.unwrap())) {
        Some(403)
    } else if !fw.allowed_methods.contains(req.method@) {
        Some(405)
    } else if fw.blocked_paths.contains(req.path@) || any_match(fw.path_patterns, req.path@) {
        Some(403)
    } else if fw.detect_attacks && (any_match(fw.attack_patterns, req.uri@) || header_attack(fw.attack_patterns, req.headers@)) {
        Some(400)
    } else {
        None
    }
}

fn contains_string(v: &Vec<String>, s: &String) -> (res: bool)
    ensures
        res == string_set(v@).contains(s@),
{
    for i in 0..v.len()
        invariant
            forall|j: int| 0 <= j < i ==> v@[j]@ != s@,
    {
        if v[i] == *s {
            return true;
        }
    }
    false
}

fn any_pattern_matches(patterns: &Vec<CompiledPattern>, text: &str) -> (res: bool)
    ensures
        res == any_match(pattern_sources(patterns@), text@),
{
    for i in 0..patterns.len()
        invariant
            forall|j: int| 0 <= j < i ==> !regex_is_match(#[trigger] pattern_sources(patterns@)[j], text@),
    {
        if pattern_is_match(&patterns[i], text) {
            assert(pattern_sources(patterns@)[i as int] == patterns@[i as int].source());
            return true;
        }
    }
    false
}

/// The response to a request refused with `status`: the status with a short text (`Forbidden`,
/// `Method Not Allowed`, `Bad Request`, or `Request Blocked` for any other status), and for 405 an
/// `allow: GET, HEAD, POST` header.
pub open spec fn is_blocked_response(res: HttpResponse, status: u16) -> bool {
    &&& res.status == status
    &&& res.body@ == encode_utf8(if status == 403 { "Forbidden"@ } else if status == 405 { "Method Not Allowed"@ }
        else if status == 400 { "Bad Request"@ } else { "Request Blocked"@ })
    &&& status == 405 ==> res.headers@.len() == 1 && res.headers@[0].0@ == "allow"@ && res.headers@[0].1@ == "GET, HEAD, POST"@
    &&& status != 405 ==> res.headers@.len() == 0
}

impl Firewall {
    /// A firewall that blocks nothing, allows GET, HEAD, POST, PUT, DELETE and OPTIONS, and
    /// screens for attack patterns (every attack pattern that compiles).
    pub fn new() -> (res: Firewall)
        ensures
            res@.blocked_ips == Set::<IpAddress>::empty(),
            res@.blocked_ranges == Seq::<IpRange>::empty(),
            res@.allowed_methods == set!["GET"@, "HEAD"@, "POST"@, "PUT"@, "DELETE"@, "OPTIONS"@],
            res@.blocked_paths == Set::<Seq<char>>::empty(),
            res@.path_patterns == Seq::<Seq<char>>::empty(),
            res@.detect_attacks,
            forall|i: int| 0 <= i < res@.attack_patterns.len() ==> attack_pattern_sources().contains(#[trigger] res@.attack_patterns[i]),
            forall|j: int| 0 <= j < attack_pattern_sources().len() && regex_compiles(#[trigger] attack_pattern_sources()[j])
                ==> res@.attack_patterns.contains(attack_pattern_sources()[j]),
    {
        let mut allowed_methods: Vec<String> = Vec::new();
        allowed_methods.push("GET".to_owned());
        allowed_methods.push("HEAD".to_owned());
        allowed_methods.push("POST".to_owned());
        allowed_methods.push("PUT".to_owned());
        allowed_methods.push("DELETE".to_owned());
        allowed_methods.push("OPTIONS".to_owned());
        let sources: Vec<&str> = vec![
            r"(?i)(\%27)|(')|(--)|(%23)|(#)|(%3B)|(;)",
            r"(?i)(select\s+)|(\s+union\s+)|(\s+insert\s+)|(\s+drop\s+)|(\s+update\s+)|(\s+delete\s+)",
            r"(?i)<script.*?>",
            r"(?i)on\w+\s*=",
            r"(?i)javascript\s*:",
            r"(?i)(/etc/passwd)|(/etc/shadow)|(/proc/self/environ)|(wp-config\.php)",
            r"(?i)(\.\./)|(\.\.\\)",
            r"(?i)(\|\s*\w+)|(\&\s*\w+)|(;\s*\w+)|(system\s*\()|(exec\s*\()",
        ];
        assert(Seq::new(sources@.len(), |i: int| sources@[i]@) =~= attack_pattern_sources());
        let mut attack_patterns: Vec<CompiledPattern> = Vec::new();
        for k in 0..sources.len()
            invariant
                sources@.len() == 8,
                Seq::new(sources@.len(), |i: int| sources@[i]@) == attack_pattern_sources(),
                forall|i: int| 0 <= i < attack_patterns@.len() ==> attack_pattern_sources().contains(#[trigger] pattern_sources(attack_patterns@)[i]),
                forall|j: int| 0 <= j < k && regex_compiles(#[trigger] attack_pattern_sources()[j])
                    ==> pattern_sources(attack_patterns@).contains(attack_pattern_sources()[j]),
        {
            assert(attack_pattern_sources()[k as int] == sources@[k as int]@);
            let ghost before = pattern_sources(attack_patterns@);
            match compile_pattern(sources[k]) {
                Ok(p) => {
                    attack_patterns.push(p);
                    proof {
                        let after = pattern_sources(attack_patterns@);
                        assert forall|i: int| 0 <= i < before.len() implies after[i] == before[i] by {}
                        assert(after[before.len() as int] == attack_pattern_sources()[k as int]);
                        assert forall|i: int| 0 <= i < attack_patterns@.len() implies attack_pattern_sources().contains(#[trigger] pattern_sources(attack_patterns@)[i]) by {
                            if i == before.len() {
                                assert(attack_pattern_sources()[k as int] == after[i]);
                            } else {
                                assert(after[i] == before[i]);
                            }
                        }
                        assert forall|j: int| 0 <= j < k + 1 && regex_compiles(#[trigger] attack_pattern_sources()[j])
                            implies pattern_sources(attack_patterns@).contains(attack_pattern_sources()[j]) by {
                            if j == k {
                                assert(after[before.len() as int] == attack_pattern_sources()[j]);
                            } else {
                                let w = choose|w: int| 0 <= w < before.len() && before[w] == attack_pattern_sources()[j];
                                assert(after[w] == before[w]);
                            }
                        }
                    }
                },
                Err(_) => {},
            }
        }
        let fw = Firewall {
            blocked_ips: Vec::new(),
            blocked_ip_ranges: Vec::new(),
            allowed_methods,
            blocked_paths: Vec::new(),
            blocked_path_patterns: Vec::new(),
            attack_patterns,
            detect_attacks: true,
        };
        assert(fw@.blocked_ips =~= Set::<IpAddress>::empty());
        assert(fw@.blocked_paths =~= Set::<Seq<char>>::empty());
        assert(fw@.path_patterns =~= Seq::<Seq<char>>::empty());
        assert(fw@.allowed_methods =~= set!["GET"@, "HEAD"@, "POST"@, "PUT"@, "DELETE"@, "OPTIONS"@]) by {
            assert forall|m: Seq<char>| fw@.allowed_methods.contains(m) <==> set!["GET"@, "HEAD"@, "POST"@, "PUT"@, "DELETE"@, "OPTIONS"@].contains(m) by {
                if set!["GET"@, "HEAD"@, "POST"@, "PUT"@, "DELETE"@, "OPTIONS"@].contains(m) {
                    if m == "GET"@ { assert(fw.allowed_methods@[0]@ == m); }
                    else if m == "HEAD"@ { assert(fw.allowed_methods@[1]@ == m); }
                    else if m == "POST"@ { assert(fw.allowed_methods@[2]@ == m); }
                    else if m == "PUT"@ { assert(fw.allowed_methods@[3]@ == m); }
                    else if m == "DELETE"@ { assert(fw.allowed_methods@[4]@ == m); }
                    else { assert(fw.allowed_methods@[5]@ == m); }
                }
            }
        }
        fw
    }

    /// Blocks a client address.
    pub fn block_ip(&mut self, ip: IpAddress)
        ensures
            final(self)@ == (FirewallView { blocked_ips: old(self)@.blocked_ips.insert(ip), ..old(self)@ }),
    {
        let mut present = false;
        for i in 0..self.blocked_ips.len()
            invariant
                present == (exists|j: int| 0 <= j < i && self.blocked_ips@[j] == ip),
        {
            if self.blocked_ips[i] == ip {
                present = true;
            }
        }
        let ghost before = self@;
        if !present {
            self.blocked_ips.push(ip);
        }
        proof {
            assert(self@.blocked_ips =~= before.blocked_ips.insert(ip)) by {
                assert forall|x: IpAddress| self@.blocked_ips.contains(x) <==> before.blocked_ips.insert(ip).contains(x) by {
                    if before.blocked_ips.contains(x) {
                        let j = choose|j: int| 0 <= j < old(self).blocked_ips@.len() && old(self).blocked_ips@[j] == x;
                        assert(self.blocked_ips@[j] == x);
                    }
                    if x == ip && !present {
                        assert(self.blocked_ips@[self.blocked_ips@.len() - 1] == x);
                    }
                    if self@.blocked_ips.contains(x) && x != ip {
                        let j = choose|j: int| 0 <= j < self.blocked_ips@.len() && self.blocked_ips@[j] == x;
                        if j < old(self).blocked_ips@.len() {
                            assert(old(self).blocked_ips@[j] == x);
                        }
                    }
                }
            }
            assert(self@.path_patterns =~= before.path_patterns);
            assert(self@.attack_patterns =~= before.attack_patterns);
        }
    }

    /// Blocks a network given in CIDR notation: IPv4 when the text holds a `.`, IPv6 otherwise.
    /// An unparsable network is refused with `Invalid IPv4 CIDR: <text>` or
    /// `Invalid IPv6 CIDR: <text>`, and the rules stay as they were.
    pub fn block_ip_range(&mut self, cidr: &str) -> (res: Result<(), String>)
        ensures
            (res is Ok) == (cidr_range(cidr@) is Some),
            final(self)@ == match cidr_range(cidr@) {
                Some(r) => FirewallView { blocked_ranges: old(self)@.blocked_ranges.push(r), ..old(self)@ },
                None => old(self)@,
            },
            cidr@.contains('.') ==> match ipv4_cidr_parse(cidr@) {
                Some((net, len)) => res is Ok && final(self)@ == (FirewallView {
                    blocked_ranges: old(self)@.blocked_ranges.push(IpRange::V4 { network: net, len }),
                    ..old(self)@
                }),
                None => res == Err::<(), String>(res->Err_0) && res->Err_0@ == "Invalid IPv4 CIDR: "@ + cidr@
                    && final(self)@ == old(self)@,
            },
            !cidr@.contains('.') ==> match ipv6_cidr_parse(cidr@) {
                Some((net, len)) => res is Ok && final(self)@ == (FirewallView {
                    blocked_ranges: old(self)@.blocked_ranges.push(IpRange::V6 { network: net, len }),
                    ..old(self)@
                }),
                None => res is Err && res->Err_0@ == "Invalid IPv6 CIDR: "@ + cidr@ && final(self)@ == old(self)@,
            },
    {
        let chars = chars_of(cidr);
        let mut has_dot = false;
        for i in 0..chars.len()
            invariant
                chars@ == cidr@,
                has_dot == (exists|j: int| 0 <= j < i && chars@[j] == '.'),
        {
            if chars[i] == '.' {
                has_dot = true;
            }
        }
        let ghost before = self@;
        if has_dot {
            match parse_ipv4_cidr(cidr) {
                Some((network, len)) => {
                    self.blocked_ip_ranges.push(IpRange::V4 { network, len });
                    assert(self@.path_patterns =~= before.path_patterns);
                    assert(self@.attack_patterns =~= before.attack_patterns);
                    Ok(())
                },
                None => {
                    let mut msg = "Invalid IPv4 CIDR: ".to_owned();
                    msg.append(cidr);
                    Err(msg)
                },
            }
        } else {
            match parse_ipv6_cidr(cidr) {
                Some((network, len)) => {
                    self.blocked_ip_ranges.push(IpRange::V6 { network, len });
                    assert(self@.path_patterns =~= before.path_patterns);
                    assert(self@.attack_patterns =~= before.attack_patterns);
                    Ok(())
                },
                None => {
                    let mut msg = "Invalid IPv6 CIDR: ".to_owned();
                    msg.append(cidr);
                    Err(msg)
                },
            }
        }
    }

    /// Replaces the allowed methods by the given ones.
    pub fn set_allowed_methods(&mut self, methods: Vec<String>)
        ensures
            final(self)@ == (FirewallView { allowed_methods: string_set(methods@), ..old(self)@ }),
    {
        let ghost before = self@;
        self.allowed_methods = methods;
        assert(self@.path_patterns =~= before.path_patterns);
        assert(self@.attack_patterns =~= before.attack_patterns);
    }

    /// Blocks a request path.
    pub fn block_path(&mut self, path: &str)
        ensures
            final(self)@ == (FirewallView { blocked_paths: old(self)@.blocked_paths.insert(path@), ..old(self)@ }),
    {
        let ghost before = self@;
        self.blocked_paths.push(path.to_owned());
        proof {
            assert(self@.blocked_paths =~= before.blocked_paths.insert(path@)) by {
                assert forall|m: Seq<char>| self@.blocked_paths.contains(m) <==> before.blocked_paths.insert(path@).contains(m) by {
                    if before.blocked_paths.contains(m) {
                        let j = choose|j: int| 0 <= j < old(self).blocked_paths@.len() && old(self).blocked_paths@[j]@ == m;
                        assert(self.blocked_paths@[j]@ == m);
                    }
                    if m == path@ {
                        assert(self.blocked_paths@[self.blocked_paths@.len() - 1]@ == m);
                    }
                    if self@.blocked_paths.contains(m) && m != path@ {
                        let j = choose|j: int| 0 <= j < self.blocked_paths@.len() && self.blocked_paths@[j]@ == m;
                        if j < old(self).blocked_paths@.len() {
                            assert(old(self).blocked_paths@[j]@ == m);
                        }
                    }
                }
            }
            assert(self@.path_patterns =~= before.path_patterns);
            assert(self@.attack_patterns =~= before.attack_patterns);
        }
    }

    /// Blocks the paths a regular expression matches; an invalid expression is refused with
    /// `Invalid regex pattern: <error>` and the rules stay as they were.
    pub fn block_path_pattern(&mut self, pattern: &str) -> (res: Result<(), String>)
        ensures
            regex_compiles(pattern@) ==> res is Ok && final(self)@ == (FirewallView {
                path_patterns: old(self)@.path_patterns.push(pattern@),
                ..old(self)@
            }),
            !regex_compiles(pattern@) ==> res is Err && res->Err_0@ == "Invalid regex pattern: "@ + regex_error_text(pattern@)
                && final(self)@ == old(self)@,
    {
        let ghost before = self@;
        match compile_pattern(pattern) {
            Ok(p) => {
                self.blocked_path_patterns.push(p);
                assert(self@.path_patterns =~= before.path_patterns.push(pattern@));
                assert(self@.attack_patterns =~= before.attack_patterns);
                Ok(())
            },
            Err(e) => {
                let mut msg = "Invalid regex pattern: ".to_owned();
                msg.append(e.as_str());
                Err(msg)
            },
        }
    }

    /// Turns attack screening on or off.
    pub fn set_attack_detection(&mut self, enabled: bool)
        ensures
            final(self)@ == (FirewallView { detect_attacks: enabled, ..old(self)@ }),
    {
        let ghost before = self@;
        self.detect_attacks = enabled;
        assert(self@.path_patterns =~= before.path_patterns);
        assert(self@.attack_patterns =~= before.attack_patterns);
    }

    /// The status with which the request is refused, or `None` when it passes.
    pub fn should_block(&self, req: &HttpRequest) -> (res: Option<u16>)
        ensures
            res == spec_should_block(self@, *req),
    {
        if let Some(ip) = get_client_ip(req) {
            let mut i: usize = 0;
            while i < self.blocked_ips.len()
                invariant
                    spec_client_ip(*req) == Some(ip),
                    i <= self.blocked_ips@.len(),
                    forall|j: int| 0 <= j < i ==> self.blocked_ips@[j] != ip,
                decreases self.blocked_ips@.len() - i,
            {
                if self.blocked_ips[i] == ip {
                    assert(self@.blocked_ips.contains(ip));
                    return Some(403);
                }
                i = i + 1;
            }
            assert(!self@.blocked_ips.contains(ip));
            let mut k: usize = 0;
            while k < self.blocked_ip_ranges.len()
                invariant
                    spec_client_ip(*req) == Some(ip),
                    k <= self.blocked_ip_ranges@.len(),
                    forall|j: int| 0 <= j < k ==> !range_contains(#[trigger] self.blocked_ip_ranges@[j], ip),
                decreases self.blocked_ip_ranges@.len() - k,
            {
                if self.blocked_ip_ranges[k].contains(&ip) {
                    assert(in_ranges(self@.blocked_ranges, ip));
                    return Some(403);
                }
                k = k + 1;
            }
        }
        if !contains_string(&self.allowed_methods, &req.method) {
            return Some(405);
        }
        if contains_string(&self.blocked_paths, &req.path) {
            return Some(403);
        }
        if any_pattern_matches(&self.blocked_path_patterns, req.path.as_str()) {
            return Some(403);
        }
        if self.detect_attacks {
            if any_pattern_matches(&self.attack_patterns, req.uri.as_str()) {
                return Some(400);
            }
            let mut h: usize = 0;
            while h < req.headers.len()
                invariant
                    self.detect_attacks,
                    spec_should_block(self@, *req) == (if header_attack(self@.attack_patterns, req.headers@) { Some(400u16) } else { None }),
                    h <= req.headers@.len(),
                    forall|j: int| 0 <= j < h ==> match spec_header_text(#[trigger] req.headers@[j].1@) {
                        Some(t) => !any_match(self@.attack_patterns, t),
                        None => true,
                    },
                decreases req.headers@.len() - h,
            {
                if let Some(text) = header_text(req.headers[h].1.as_slice()) {
                    if any_pattern_matches(&self.attack_patterns, text.as_str()) {
                        assert(header_attack(self@.attack_patterns, req.headers@));
                        return Some(400);
                    }
                }
                h = h + 1;
            }
        }
        None
    }

    /// The response to a refused request: the status with a short text (`Forbidden`,
    /// `Method Not Allowed`, `Bad Request`, or `Request Blocked` for any other status), and for
    /// 405 an `allow: GET, HEAD, POST` header.
    pub fn create_blocked_response(status: u16) -> (res: HttpResponse)
        ensures
            is_blocked_response(res, status),
    {
        let body = if status == 403 {
            text_body("Forbidden")
        } else if status == 405 {
            text_body("Method Not Allowed")
        } else if status == 400 {
            text_body("Bad Request")
        } else {
            text_body("Request Blocked")
        };
        let mut headers: Vec<(String, String)> = Vec::new();
        if status == 405 {
            headers.push(("allow".to_owned(), "GET, HEAD, POST".to_owned()));
        }
        HttpResponse { status, headers, raw_headers: Vec::new(), body }
    }
}

/// A request from a blocked address is always refused with 403, whatever else it carries.
pub proof fn blocked_client_is_forbidden(fw: FirewallView, ip: IpAddress, req: HttpRequest)
    requires
        spec_client_ip(req) == Some(ip),
    ensures
        spec_should_block(FirewallView { blocked_ips: fw.blocked_ips.insert(ip), ..fw }, req) == Some(403u16),
{
}

/// A request whose client address is neither blocked nor in a blocked network, and whose method
/// is not allowed, is refused with 405.
pub proof fn disallowed_method_is_refused(fw: FirewallView, req: HttpRequest)
    requires
        spec_client_ip(req) is Some ==> !fw.blocked_ips.contains(spec_client_ip(req).unwrap())
            && !in_ranges(fw.blocked_ranges, spec_client_ip(req).unwrap()),
        !fw.allowed_methods.contains(req.method@),
    ensures
        spec_should_block(fw, req) == Some(405u16),
{
}

/// A request refused by the firewall stays refused after more addresses, paths or patterns are
/// blocked: blocking never lets a request through that was refused before, except that a
/// request refused for a method may now be refused earlier, for its address.
pub proof fn blocking_more_never_admits(fw: FirewallView, ip: IpAddress, req: HttpRequest)
    requires
        spec_should_block(fw, req) is Some,
    ensures
        spec_should_block(FirewallView { blocked_ips: fw.blocked_ips.insert(ip), ..fw }, req) is Some,
{
    let ip2 = spec_client_ip(req);
    if ip2 is Some && fw.blocked_ips.contains(ip2.unwrap()) {
        assert(fw.blocked_ips.insert(ip).contains(ip2.unwrap()));
    }
}

} // verus!
