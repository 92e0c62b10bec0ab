use webserver::config::BasicAuthConfig;
use webserver::message::HttpRequest;
use webserver::net::{IpAddress, IpRange};
use webserver::security::auth::{
    find_user_hash, format_users, hash_password, parse_users, request_basic_auth, verify_basic_auth, verify_password,
};
use webserver::security::firewall::Firewall;
use webserver::security::headers::{generate_csrf_token, verify_csrf_token};
use webserver::security::rate_limiter::{check_rate_limit, RateLimiter};

fn request(method: &str, uri: &str, path: &str, headers: Vec<(&str, &[u8])>, peer: Option<IpAddress>) -> HttpRequest {
    HttpRequest {
        method: method.to_string(),
        uri: uri.to_string(),
        scheme: None,
        authority: None,
        path: path.to_string(),
        query: None,
        headers: headers.into_iter().map(|(n, v)| (n.to_string(), v.to_vec())).collect(),
        peer_ip: peer,
        forwarded_ip: None,
        remote_ip: None,
    }
}

const SECOND: u64 = 1_000_000_000;

#[test]
fn hashed_password_verifies() {
    let h = hash_password("s3cret");
    assert!(h.starts_with("$pbkdf2-sha512$100000$"));
    assert_eq!(h.split('$').count(), 5);
    assert!(verify_password("s3cret", &h));
    assert!(!verify_password("wrong", &h));
}

#[test]
fn two_hashes_of_one_password_differ_in_salt() {
    let a = hash_password("pw");
    let b = hash_password("pw");
    assert_ne!(a, b);
    assert!(verify_password("pw", &a) && verify_password("pw", &b));
}

#[test]
fn malformed_hashes_do_not_verify() {
    assert!(!verify_password("pw", ""));
    assert!(!verify_password("pw", "$md5$1$AAAA$AAAA"));
    assert!(!verify_password("pw", "$pbkdf2-sha512$abc$AAAA$AAAA"));
    assert!(!verify_password("pw", "$pbkdf2-sha512$10$!!!$AAAA"));
}

#[test]
fn zero_iteration_hash_does_not_verify() {
    assert!(!verify_password("pw", "$pbkdf2-sha512$0$c2FsdA==$aGFzaA=="));
}

#[test]
fn basic_auth_accepts_known_user() {
    let hash = hash_password("open sesame");
    let cfg = BasicAuthConfig { realm: "r".to_string(), users: vec![("ali".to_string(), hash)] };
    // "ali:open sesame" in base64
    let header = b"Basic YWxpOm9wZW4gc2VzYW1l";
    assert!(verify_basic_auth(Some(&header[..]), &cfg));
    let wrong = b"Basic YWxpOndyb25n";
    assert!(!verify_basic_auth(Some(&wrong[..]), &cfg));
    assert!(!verify_basic_auth(None, &cfg));
    let bad_scheme = b"Bearer YWxpOm9wZW4gc2VzYW1l";
    assert!(!verify_basic_auth(Some(&bad_scheme[..]), &cfg));
}

#[test]
fn basic_auth_challenge_names_realm() {
    let r = request_basic_auth("private area");
    assert_eq!(r.status, 401);
    assert_eq!(r.body, b"Authentication required".to_vec());
    assert_eq!(r.headers, vec![("www-authenticate".to_string(), "Basic realm=\"private area\"".to_string())]);
}

#[test]
fn find_user_hash_finds_last_match() {
    let users = vec![("a".to_string(), "h1".to_string()), ("b".to_string(), "h2".to_string())];
    assert_eq!(find_user_hash(&users, &"b".to_string()), Some("h2".to_string()));
    assert_eq!(find_user_hash(&users, &"c".to_string()), None);
}

#[test]
fn users_file_parse_skips_comments_and_blanks() {
    let text = "# users\n\nalice:$h1\r\nbob:x:y\nnocolon\nalice:$h2\n";
    let mut users = parse_users(text);
    users.sort();
    assert_eq!(users, vec![("alice".to_string(), "$h2".to_string()), ("bob".to_string(), "x:y".to_string())]);
}

#[test]
fn users_file_save_then_load() {
    let users = vec![("ann".to_string(), "$pbkdf2-sha512$1$AA$BB".to_string()), ("bo".to_string(), "".to_string())];
    let text = format_users(&users);
    assert_eq!(text, "ann:$pbkdf2-sha512$1$AA$BB\nbo:\n");
    let mut back = parse_users(&text);
    back.sort();
    assert_eq!(back, users);
}

#[test]
fn csrf_token_matches_either_header() {
    assert!(verify_csrf_token(Some(&b"tok"[..]), None, "tok"));
    assert!(verify_csrf_token(None, Some(&b"tok"[..]), "tok"));
    assert!(!verify_csrf_token(Some(&b"bad"[..]), None, "tok"));
    assert!(!verify_csrf_token(None, None, "tok"));
}

#[test]
fn csrf_tokens_are_alphanumeric() {
    let t = generate_csrf_token();
    assert_eq!(t.len(), 32);
    assert!(t.chars().all(|c| c.is_ascii_alphanumeric()));
}

#[test]
fn rate_limiter_allows_up_to_limit_in_window() {
    let mut l = RateLimiter::new(2, 60);
    let ip = IpAddress::V4(0x7f000001);
    assert!(l.check_rate_limit(ip, 10 * SECOND));
    assert!(l.check_rate_limit(ip, 11 * SECOND));
    assert!(!l.check_rate_limit(ip, 12 * SECOND));
    assert!(!l.check_rate_limit(ip, 60 * SECOND));
    // a new window starts once more than 60 seconds have passed
    assert!(l.check_rate_limit(ip, 71 * SECOND));
}

#[test]
fn rate_limiter_counts_clients_apart() {
    let mut l = RateLimiter::new(1, 60);
    assert!(l.check_rate_limit(IpAddress::V4(1), SECOND));
    assert!(l.check_rate_limit(IpAddress::V4(2), SECOND));
    assert!(!l.check_rate_limit(IpAddress::V4(1), 2 * SECOND));
}

#[test]
fn rate_limited_request_gets_429() {
    let mut limiter = Some(RateLimiter::new(1, 60));
    let req = request("GET", "/", "/", vec![], Some(IpAddress::V4(5)));
    assert!(check_rate_limit(&mut limiter, &req, SECOND).is_none());
    let r = check_rate_limit(&mut limiter, &req, 2 * SECOND).expect("limited");
    assert_eq!(r.status, 429);
    assert_eq!(r.body, b"Rate limit exceeded".to_vec());
    assert_eq!(r.headers, vec![("retry-after".to_string(), "60".to_string())]);
    let mut none: Option<RateLimiter> = None;
    assert!(check_rate_limit(&mut none, &req, SECOND).is_none());
}

#[test]
fn client_ip_prefers_peer_then_forwarded() {
    let mut req = request("GET", "/", "/", vec![], None);
    req.forwarded_ip = Some(IpAddress::V4(9));
    req.remote_ip = Some(IpAddress::V4(8));
    assert_eq!(RateLimiter::get_client_ip(&req), Some(IpAddress::V4(9)));
    req.peer_ip = Some(IpAddress::V4(7));
    assert_eq!(RateLimiter::get_client_ip(&req), Some(IpAddress::V4(7)));
}

#[test]
fn firewall_blocks_listed_address() {
    let mut fw = Firewall::new();
    fw.block_ip(IpAddress::V4(0x0a000001));
    let blocked = request("GET", "/", "/", vec![], Some(IpAddress::V4(0x0a000001)));
    let other = request("GET", "/", "/", vec![], Some(IpAddress::V4(0x0a000002)));
    assert_eq!(fw.should_block(&blocked), Some(403));
    assert_eq!(fw.should_block(&other), None);
}

#[test]
fn firewall_blocks_ranges() {
    let mut fw = Firewall::new();
    assert!(fw.block_ip_range("10.0.0.0/8").is_ok());
    assert!(fw.block_ip_range("2001:db8::/32").is_ok());
    let inside = request("GET", "/", "/", vec![], Some(IpAddress::V4(0x0a0b0c0d)));
    assert_eq!(fw.should_block(&inside), Some(403));
    let v6 = request("GET", "/", "/", vec![], Some(IpAddress::V6(0x2001_0db8_0000_0000_0000_0000_0000_0001)));
    assert_eq!(fw.should_block(&v6), Some(403));
    let outside = request("GET", "/", "/", vec![], Some(IpAddress::V4(0x0b000000)));
    assert_eq!(fw.should_block(&outside), None);
}

#[test]
fn firewall_range_errors_name_the_family() {
    let mut fw = Firewall::new();
    assert_eq!(fw.block_ip_range("10.0.0.0/33"), Err("Invalid IPv4 CIDR: 10.0.0.0/33".to_string()));
    assert_eq!(fw.block_ip_range("nonsense"), Err("Invalid IPv6 CIDR: nonsense".to_string()));
}

#[test]
fn firewall_refuses_unlisted_method() {
    let fw = Firewall::new();
    let req = request("TRACE", "/", "/", vec![], None);
    assert_eq!(fw.should_block(&req), Some(405));
    let mut fw2 = Firewall::new();
    fw2.set_allowed_methods(vec!["GET".to_string()]);
    assert_eq!(fw2.should_block(&request("POST", "/", "/", vec![], None)), Some(405));
    assert_eq!(fw2.should_block(&request("GET", "/", "/", vec![], None)), None);
}

#[test]
fn firewall_blocks_paths_and_patterns() {
    let mut fw = Firewall::new();
    fw.block_path("/admin");
    assert!(fw.block_path_pattern(r"^/secret/.*").is_ok());
    assert_eq!(fw.should_block(&request("GET", "/admin", "/admin", vec![], None)), Some(403));
    assert_eq!(fw.should_block(&request("GET", "/secret/x", "/secret/x", vec![], None)), Some(403));
    assert_eq!(fw.should_block(&request("GET", "/public", "/public", vec![], None)), None);
    let err = fw.block_path_pattern("(").unwrap_err();
    assert!(err.starts_with("Invalid regex pattern: "));
}

#[test]
fn firewall_detects_attacks_in_uri_and_headers() {
    let fw = Firewall::new();
    assert_eq!(fw.should_block(&request("GET", "/a?q=1 union select", "/a", vec![], None)), Some(400));
    assert_eq!(fw.should_block(&request("GET", "/x", "/x", vec![("user-agent", b"<script>")], None)), Some(400));
    let mut off = Firewall::new();
    off.set_attack_detection(false);
    assert_eq!(off.should_block(&request("GET", "/a?q=1 union select", "/a", vec![], None)), None);
}

#[test]
fn blocked_responses_have_their_texts() {
    let r = Firewall::create_blocked_response(405);
    assert_eq!(r.status, 405);
    assert_eq!(r.body, b"Method Not Allowed".to_vec());
    assert_eq!(r.headers, vec![("allow".to_string(), "GET, HEAD, POST".to_string())]);
    assert_eq!(Firewall::create_blocked_response(403).body, b"Forbidden".to_vec());
    assert_eq!(Firewall::create_blocked_response(400).body, b"Bad Request".to_vec());
    assert_eq!(Firewall::create_blocked_response(418).body, b"Request Blocked".to_vec());
}

#[test]
fn ip_ranges_contain_their_addresses() {
    let r = IpRange::V4 { network: 0xc0a80000, len: 16 };
    assert!(r.contains(&IpAddress::V4(0xc0a8ffff)));
    assert!(!r.contains(&IpAddress::V4(0xc0a90000)));
    assert!(!r.contains(&IpAddress::V6(1)));
    let all = IpRange::V4 { network: 0, len: 0 };
    assert!(all.contains(&IpAddress::V4(0xffffffff)));
}
