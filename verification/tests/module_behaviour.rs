use webserver::message::{HttpRequest, HttpResponse};
use webserver::modules::cache::{CacheModule, CacheSettings};
use webserver::modules::gzip::{GzipModule, GzipSettings};
use webserver::modules::proxy::{ProxyModule, ProxyOutcome, ProxySettings};
use webserver::modules::rewrite::{RewriteModule, RewriteRuleSetting};
use webserver::modules::security::{FirewallSettings, HeaderSettings, RateLimitSettings, SecurityModule, SecurityModuleSettings};
use webserver::modules::static_files::{DirEntryInfo, FileQuery, StaticFilesModule, StaticFilesSettings, sort_entries};
use webserver::modules::{plan_modules, ModuleKind, ModulePlan};
use webserver::config::{ModuleConfig, VirtualHostConfig};
use webserver::vhost::VirtualHost;
use webserver::net::IpAddress;

fn request(method: &str, uri: &str, path: &str, query: Option<&str>, headers: Vec<(&str, &[u8])>) -> HttpRequest {
    HttpRequest {
        method: method.to_string(),
        uri: uri.to_string(),
        scheme: None,
        authority: None,
        path: path.to_string(),
        query: query.map(|q| q.to_string()),
        headers: headers.into_iter().map(|(n, v)| (n.to_string(), v.to_vec())).collect(),
        peer_ip: None,
        forwarded_ip: None,
        remote_ip: None,
    }
}

fn response(status: u16, headers: Vec<(&str, &str)>, body: &[u8]) -> HttpResponse {
    HttpResponse {
        status,
        headers: headers.into_iter().map(|(n, v)| (n.to_string(), v.to_string())).collect(),
        raw_headers: vec![],
        body: body.to_vec(),
    }
}

fn lookup<'a>(r: &'a HttpResponse, name: &str) -> Option<&'a str> {
    r.headers.iter().rev().find(|(n, _)| n == name).map(|(_, v)| v.as_str())
}

const SECOND: u64 = 1_000_000_000;

#[test]
fn gzip_builders_set_their_values() {
    let g = GzipModule::new().with_level(12).with_min_size(10).with_content_types(vec!["text/csv".to_string()]);
    let req = request("GET", "/", "/", None, vec![("accept-encoding", b"gzip, deflate")]);
    let csv = response(200, vec![("content-type", "text/csv; charset=utf-8"), ("content-length", "20")], b"");
    assert!(g.should_compress(&req, &csv));
    let small = response(200, vec![("content-type", "text/csv"), ("content-length", "9")], b"");
    assert!(!g.should_compress(&req, &small));
    assert_eq!(g.name(), "gzip");
}

#[test]
fn gzip_needs_client_support_and_known_type() {
    let g = GzipModule::new();
    let html = response(200, vec![("content-type", "text/html")], b"");
    let no_accept = request("GET", "/", "/", None, vec![]);
    assert!(!g.should_compress(&no_accept, &html));
    let accept = request("GET", "/", "/", None, vec![("accept-encoding", b"gzip")]);
    assert!(g.should_compress(&accept, &html));
    let png = response(200, vec![("content-type", "image/png")], b"");
    assert!(!g.should_compress(&accept, &png));
    let encoded = response(200, vec![("content-type", "text/html"), ("content-encoding", "br")], b"");
    assert!(!g.should_compress(&accept, &encoded));
    let bad_len = response(200, vec![("content-type", "text/html"), ("content-length", "many")], b"");
    assert!(g.should_compress(&accept, &bad_len));
}

#[test]
fn gzip_compresses_large_text() {
    let g = GzipModule::new();
    let req = request("GET", "/", "/", None, vec![("accept-encoding", b"gzip")]);
    let body = vec![b'a'; 5000];
    let mut res = response(200, vec![("content-type", "text/plain")], &body);
    assert!(g.post_process(&mut res, &req).is_ok());
    assert!(res.body.len() < 5000);
    assert_eq!(&res.body[0..2], &[0x1f, 0x8b]);
    assert_eq!(lookup(&res, "content-encoding"), Some("gzip"));
    assert_eq!(lookup(&res, "content-length"), Some(res.body.len().to_string().as_str()));
    assert_eq!(lookup(&res, "vary"), Some("Accept-Encoding"));
}

#[test]
fn gzip_leaves_small_bodies() {
    let g = GzipModule::new();
    let req = request("GET", "/", "/", None, vec![("accept-encoding", b"gzip")]);
    let mut res = response(200, vec![("content-type", "text/plain")], b"short");
    assert!(g.post_process(&mut res, &req).is_ok());
    assert_eq!(res.body, b"short".to_vec());
    assert_eq!(lookup(&res, "content-encoding"), None);
    assert_eq!(lookup(&res, "vary"), Some("Accept-Encoding"));
}

#[test]
fn gzip_init_replaces_types_and_caps_level() {
    let mut g = GzipModule::new();
    g.init(&GzipSettings { level: Some(50), min_size: Some(0), compress_types: Some(vec!["application/wasm".to_string()]) });
    let req = request("GET", "/", "/", None, vec![("accept-encoding", b"gzip")]);
    assert!(!g.should_compress(&req, &response(200, vec![("content-type", "text/html")], b"")));
    assert!(g.should_compress(&req, &response(200, vec![("content-type", "application/wasm")], b"")));
}

#[test]
fn static_files_defaults_and_builders() {
    let s = StaticFilesModule::new().with_cache_control("no-cache").with_directory_listing(true);
    let r = s.file_response("/srv/a.css", b"x".to_vec()).expect("valid headers");
    assert_eq!(r.status, 200);
    assert_eq!(r.headers[0], ("content-type".to_string(), "text/css".to_string()));
    assert_eq!(r.headers[1], ("cache-control".to_string(), "no-cache".to_string()));
    let d = StaticFilesModule::new();
    let r2 = d.file_response("/srv/blob.unknownext", vec![]).unwrap();
    assert_eq!(r2.headers[0].1, "application/octet-stream");
    assert_eq!(r2.headers[1].1, "public, max-age=3600");
    let bad = StaticFilesModule::new().with_cache_control("a\nb");
    assert!(bad.file_response("/x.txt", vec![]).is_none());
    assert_eq!(d.name(), "static_files");
}

#[test]
fn static_files_resolution_serves_index_file() {
    let cfg = VirtualHostConfig {
        server_name: "h".to_string(), document_root: "/srv/www".to_string(), index: vec![],
        error_pages: Default::default(), locations: vec![], aliases: vec![], ssl_certificate: None,
        ssl_certificate_key: None, enable_php: false, enable_cgi: false, rewrites: vec![], gzip: false,
        gzip_types: vec![], allow_methods: vec![], deny_methods: vec![], basic_auth: None,
    };
    let vhost = VirtualHost::new(&cfg, "/").unwrap();
    let m = StaticFilesModule::new().with_index_files(vec!["a.html".to_string(), "b.html".to_string()]);
    let (st, q) = m.resolve_start("/docs//", &vhost, None);
    match q { FileQuery::IsDir(p) => assert_eq!(p, "/srv/www/docs"), _ => panic!("expected a directory question") }
    let (st, q) = m.resolve_step(st, true);
    match q { FileQuery::Exists(p) => assert_eq!(p, "/srv/www/docs/a.html"), _ => panic!() }
    let (st, q) = m.resolve_step(st, false);
    match q { FileQuery::Exists(p) => assert_eq!(p, "/srv/www/docs/b.html"), _ => panic!() }
    let (st, q) = m.resolve_step(st, true);
    match q { FileQuery::IsDir(p) => assert_eq!(p, "/srv/www/docs/b.html"), _ => panic!() }
    let (st, q) = m.resolve_step(st, false);
    match q { FileQuery::Exists(p) => assert_eq!(p, "/srv/www/docs/b.html"), _ => panic!() }
    let (_, q) = m.resolve_step(st, true);
    match q { FileQuery::Done(Some(p)) => assert_eq!(p, "/srv/www/docs/b.html"), _ => panic!() }
}

#[test]
fn static_files_refuse_directory_without_listing() {
    let cfg = VirtualHostConfig {
        server_name: "h".to_string(), document_root: "/srv".to_string(), index: vec![],
        error_pages: Default::default(), locations: vec![], aliases: vec![], ssl_certificate: None,
        ssl_certificate_key: None, enable_php: false, enable_cgi: false, rewrites: vec![], gzip: false,
        gzip_types: vec![], allow_methods: vec![], deny_methods: vec![], basic_auth: None,
    };
    let vhost = VirtualHost::new(&cfg, "/").unwrap();
    let m = StaticFilesModule::new().with_index_files(vec![]);
    let (st, _) = m.resolve_start("/", &vhost, None);
    let (st, q) = m.resolve_step(st, true);
    match q { FileQuery::IsDir(p) => assert_eq!(p, "/srv/"), _ => panic!() }
    let (_, q) = m.resolve_step(st, true);
    assert!(matches!(q, FileQuery::Done(None)));
}

#[test]
fn static_files_init_applies_settings() {
    let mut m = StaticFilesModule::new();
    m.init(&StaticFilesSettings { cache_control: Some("max-age=1".to_string()), allow_directory_listing: None, index_files: None });
    let r = m.file_response("/a.txt", vec![]).unwrap();
    assert_eq!(r.headers[1].1, "max-age=1");
}

fn entry(name: &str, dir: bool, size: u64) -> DirEntryInfo {
    DirEntryInfo { name: name.to_string(), sort_key: name.as_bytes().to_vec(), sorts_as_dir: dir, is_dir: dir, size, modified: "2024-01-01 00:00:00".to_string() }
}

#[test]
fn listing_sorts_directories_first() {
    let sorted = sort_entries(vec![entry("b.txt", false, 1), entry("z", true, 0), entry("a.txt", false, 2), entry("m", true, 0)]);
    let names: Vec<&str> = sorted.iter().map(|e| e.name.as_str()).collect();
    assert_eq!(names, vec!["m", "z", "a.txt", "b.txt"]);
}

#[test]
fn listing_page_has_rows_and_parent_link() {
    let m = StaticFilesModule::new();
    let r = m.generate_directory_listing(vec![entry("f.txt", false, 4096), entry("d", true, 0)], "/files/");
    let page = String::from_utf8(r.body).unwrap();
    assert_eq!(r.headers, vec![("content-type".to_string(), "text/html; charset=utf-8".to_string())]);
    assert!(page.starts_with("<!DOCTYPE html>\n<html>\n<head>\n<title>Directory listing for /files/</title>"));
    assert!(page.contains("<tr><td><a href=\"../\">../</a></td><td>-</td><td>-</td></tr>\n"));
    let d = page.find("<a href=\"d/\">d/</a></td><td>-</td>").unwrap();
    let f = page.find("<a href=\"f.txt\">f.txt</a></td><td>4 KB</td><td>2024-01-01 00:00:00</td>").unwrap();
    assert!(d < f);
    assert!(page.ends_with("</table>\n</body>\n</html>"));
    let root = m.generate_directory_listing(vec![], "/");
    assert!(!String::from_utf8(root.body).unwrap().contains("../"));
}

#[test]
fn cache_serves_stored_response_until_stale() {
    let mut c = CacheModule::new();
    c.init(&CacheSettings { default_ttl: Some(10), max_size: None });
    let req = request("GET", "/page", "/page", None, vec![]);
    let res = response(200, vec![("content-type", "text/plain"), ("etag", "\"v1\"")], b"hello");
    c.post_process(&res, &req, 100 * SECOND);
    let hit = c.pre_process(&req, 105 * SECOND).expect("fresh entry");
    assert_eq!(hit.status, 200);
    assert_eq!(hit.body, b"hello".to_vec());
    assert_eq!(lookup(&hit, "content-type"), Some("text/plain"));
    assert!(c.pre_process(&req, 110 * SECOND).is_some());
    assert!(c.pre_process(&req, 111 * SECOND).is_none());
}

#[test]
fn cache_ignores_uncacheable_requests_and_statuses() {
    let mut c = CacheModule::new();
    let post = request("POST", "/p", "/p", None, vec![]);
    c.post_process(&response(200, vec![], b"x"), &post, SECOND);
    assert!(c.get_cached(&post, SECOND).is_none());
    let get = request("GET", "/e", "/e", None, vec![]);
    c.post_process(&response(500, vec![], b"x"), &get, SECOND);
    assert!(c.pre_process(&get, SECOND).is_none());
    c.post_process(&response(304, vec![], b""), &get, SECOND);
    assert!(c.pre_process(&get, SECOND).is_some());
    assert_eq!(c.cache_key(&get), "GET /e");
}

#[test]
fn cache_evicts_oldest_when_full() {
    let mut c = CacheModule::new();
    c.init(&CacheSettings { default_ttl: None, max_size: Some(2) });
    let a = request("GET", "/a", "/a", None, vec![]);
    let b = request("GET", "/b", "/b", None, vec![]);
    let d = request("GET", "/d", "/d", None, vec![]);
    let ok = response(200, vec![], b"1");
    c.post_process(&ok, &a, 1 * SECOND);
    c.post_process(&ok, &b, 2 * SECOND);
    c.post_process(&ok, &d, 3 * SECOND);
    assert!(c.pre_process(&a, 3 * SECOND).is_none());
    assert!(c.pre_process(&b, 3 * SECOND).is_some());
    assert!(c.pre_process(&d, 3 * SECOND).is_some());
}

#[test]
fn cache_cleanup_drops_stale_entries() {
    let mut c = CacheModule::new();
    let a = request("GET", "/a", "/a", None, vec![]);
    let b = request("HEAD", "/b", "/b", None, vec![]);
    c.post_process(&response(200, vec![], b""), &a, 0);
    c.post_process(&response(200, vec![], b""), &b, 50 * SECOND);
    c.remove_expired(100 * SECOND, 60);
    assert!(c.get_cached(&a, 50 * SECOND).is_none());
    assert!(c.get_cached(&b, 50 * SECOND).is_some());
}

#[test]
fn rewrite_redirects_and_rewrites() {
    let mut m = RewriteModule::new();
    assert!(m.add_rule("^/old/(.*)$", "/new/$1", Some(vec!["R", "P"])).is_ok());
    let mut req = request("GET", "http://h/old/x", "/old/x", None, vec![]);
    req.scheme = Some("http".to_string());
    req.authority = Some("h".to_string());
    let r = m.process_request(&mut req).expect("redirect");
    assert_eq!(r.status, 301);
    assert_eq!(r.headers, vec![("location".to_string(), "http://h/new/x".to_string())]);
    let mut m2 = RewriteModule::new();
    assert!(m2.add_rule("^/a$", "/b", Some(vec!["L"])).is_ok());
    assert!(m2.add_rule("^/a$", "/c", None).is_ok());
    let mut req2 = request("GET", "/a?q=1", "/a", Some("q=1"), vec![]);
    assert!(m2.process_request(&mut req2).is_none());
    assert_eq!(req2.path, "/b");
    assert_eq!(req2.query, None);
    assert_eq!(req2.uri, "/b");
}

#[test]
fn rewrite_keeps_query_with_qsa() {
    let mut m = RewriteModule::new();
    assert!(m.add_rule("^/s$", "/search", Some(vec!["QSA"])).is_ok());
    let mut req = request("GET", "/s?q=rust", "/s", Some("q=rust"), vec![]);
    assert!(m.process_request(&mut req).is_none());
    assert_eq!(req.uri, "/search?q=rust");
    assert_eq!(req.query, Some("q=rust".to_string()));
}

#[test]
fn rewrite_refuses_bad_pattern_and_init_skips_empty() {
    let mut m = RewriteModule::new();
    assert!(m.add_rule("(", "/x", None).is_err());
    m.init(&vec![
        RewriteRuleSetting { pattern: Some("^/x$".to_string()), replacement: Some("/y".to_string()), flags: None },
        RewriteRuleSetting { pattern: Some("".to_string()), replacement: Some("/z".to_string()), flags: None },
        RewriteRuleSetting { pattern: Some("(".to_string()), replacement: Some("/z".to_string()), flags: None },
    ]);
    let mut req = request("GET", "/x", "/x", None, vec![]);
    assert!(m.process_request(&mut req).is_none());
    assert_eq!(req.path, "/y");
    assert_eq!(m.name(), "rewrite");
}

#[test]
fn proxy_picks_longest_prefix() {
    let mut p = ProxyModule::new();
    p.add_backend("/api", "http://a:1");
    p.add_backend("/api/v2", "http://b:2");
    let (pre, back) = p.find_backend("/api/v2/users").unwrap();
    assert_eq!((pre.as_str(), back.as_str()), ("/api/v2", "http://b:2"));
    let (pre, _) = p.find_backend("/api/v1").unwrap();
    assert_eq!(pre, "/api");
    assert!(p.find_backend("/other").is_none());
}

#[test]
fn proxy_rewrites_uri_and_headers() {
    let mut p = ProxyModule::new();
    p.add_backend("/api", "http://backend:8080");
    p.add_header("X-Extra", "yes");
    let mut req = request("GET", "/api/items?x=1", "/api/items", Some("x=1"),
        vec![("connection", b"keep-alive"), ("host", b"front"), ("accept", b"*/*")]);
    req.scheme = Some("https".to_string());
    let (fwd, timeout) = p.pre_process(&req, Some("1.2.3.4")).unwrap().unwrap();
    assert_eq!(timeout, 30);
    assert_eq!(fwd.uri, "http://backend:8080/items?x=1");
    assert_eq!(fwd.method, "GET");
    let get = |n: &str| fwd.headers.iter().rev().find(|(k, _)| k == n).map(|(_, v)| v.clone());
    assert_eq!(get("connection"), None);
    assert_eq!(get("accept"), Some(b"*/*".to_vec()));
    assert_eq!(get("x-forwarded-for"), Some(b"1.2.3.4".to_vec()));
    assert_eq!(get("x-forwarded-proto"), Some(b"https".to_vec()));
    assert_eq!(get("x-forwarded-host"), Some(b"front".to_vec()));
    assert_eq!(get("x-extra"), Some(b"yes".to_vec()));
    assert_eq!(get("host"), Some(b"backend:8080".to_vec()));
}

#[test]
fn proxy_appends_to_forwarded_for_and_reports_bad_uri() {
    let mut p = ProxyModule::new();
    p.add_backend("/", "http://b");
    let req = request("GET", "/x", "/x", None, vec![("x-forwarded-for", b"9.9.9.9")]);
    let (fwd, _) = p.pre_process(&req, Some("1.1.1.1")).unwrap().unwrap();
    assert_eq!(fwd.uri, "http://b/x");
    let xff = fwd.headers.iter().rev().find(|(k, _)| k == "x-forwarded-for").unwrap();
    assert_eq!(xff.1, b"9.9.9.9, 1.1.1.1".to_vec());
    let mut bad = ProxyModule::new();
    bad.add_backend("/", "http://bad host");
    assert_eq!(bad.pre_process(&req, None).err(), Some("Failed to parse backend URI".to_string()));
    assert!(ProxyModule::new().pre_process(&req, None).unwrap().is_none());
}

#[test]
fn proxy_finishes_responses() {
    let p = ProxyModule::new();
    let r = p.finish_proxy(ProxyOutcome::Response(response(200, vec![("connection", "close"), ("x-a", "1")], b"ok")));
    assert_eq!(lookup(&r, "connection"), None);
    assert_eq!(lookup(&r, "x-a"), Some("1"));
    assert_eq!(lookup(&r, "x-proxied-by"), Some("Rust Web Server"));
    let f = p.finish_proxy(ProxyOutcome::Failed);
    assert_eq!((f.status, f.body), (502, b"Bad Gateway".to_vec()));
    let t = p.finish_proxy(ProxyOutcome::TimedOut);
    assert_eq!((t.status, t.body), (504, b"Gateway Timeout".to_vec()));
}

#[test]
fn proxy_init_applies_settings() {
    let mut p = ProxyModule::new();
    p.init(&ProxySettings { backends: vec![("/s".to_string(), "http://s".to_string())], timeout: Some(5), forward_ip: Some(false), headers: vec![] });
    let req = request("GET", "/s/a", "/s/a", None, vec![]);
    let (fwd, t) = p.pre_process(&req, Some("1.1.1.1")).unwrap().unwrap();
    assert_eq!(t, 5);
    assert!(fwd.headers.iter().all(|(k, _)| k != "x-forwarded-for"));
    assert_eq!(p.name(), "proxy");
}

#[test]
fn security_module_blocks_and_limits() {
    let mut m = SecurityModule::new();
    let limit = m.init(&SecurityModuleSettings {
        rate_limiting: Some(RateLimitSettings { enabled: Some(true), requests: Some(1), window: None }),
        firewall: Some(FirewallSettings {
            allowed_methods: vec![], blocked_ips: vec![IpAddress::V4(7)], blocked_ranges: vec!["bad".to_string()],
            blocked_paths: vec!["/x".to_string()], detect_attacks: Some(false),
        }),
        headers: Some(HeaderSettings { enabled: None, hsts: Some(false), hsts_max_age: None, xss_protection: None,
            frame_options: None, content_security_policy: None, csp_value: Some("default-src 'none'".to_string()) }),
    });
    assert_eq!(limit, Some((1, 60)));
    let mut limiter = Some(webserver::security::rate_limiter::RateLimiter::new(1, 60));
    let mut blocked = request("GET", "/", "/", None, vec![]);
    blocked.peer_ip = Some(IpAddress::V4(7));
    assert_eq!(m.pre_process(&blocked, &mut limiter, SECOND).unwrap().status, 403);
    assert_eq!(m.pre_process(&request("GET", "/x", "/x", None, vec![]), &mut limiter, SECOND).unwrap().status, 403);
    let mut ok = request("GET", "/y", "/y", None, vec![]);
    ok.peer_ip = Some(IpAddress::V4(8));
    assert!(m.pre_process(&ok, &mut limiter, SECOND).is_none());
    assert_eq!(m.pre_process(&ok, &mut limiter, 2 * SECOND).unwrap().status, 429);
    let mut res = response(200, vec![], b"");
    m.post_process(&mut res, &ok);
    assert_eq!(lookup(&res, "content-security-policy"), Some("default-src 'none'"));
    assert_eq!(lookup(&res, "strict-transport-security"), None);
}

#[test]
fn security_module_builders() {
    let m = SecurityModule::new().with_security_headers(false).block_ip(None).block_ip_range("192.168.0.0/16");
    let mut res = response(200, vec![], b"");
    m.post_process(&mut res, &request("GET", "/", "/", None, vec![]));
    assert!(res.headers.is_empty());
    let mut req = request("GET", "/", "/", None, vec![]);
    req.peer_ip = Some(IpAddress::V4(0xc0a80101));
    let mut none = None;
    assert_eq!(m.pre_process(&req, &mut none, 0).unwrap().status, 403);
    assert_eq!(m.name(), "security");
}

#[test]
fn module_plan_keeps_enabled_known_modules() {
    let cfg = |n: &str, e: bool| ModuleConfig { name: n.to_string(), enabled: e, settings: "{}".to_string() };
    let plan = plan_modules(&vec![cfg("cache", true), cfg("proxy", false), cfg("mystery", true), cfg("security", true)]);
    assert_eq!(plan, vec![
        ModulePlan::Builtin(ModuleKind::StaticFiles),
        ModulePlan::Builtin(ModuleKind::Gzip),
        ModulePlan::Configured(ModuleKind::Cache, 0),
        ModulePlan::Unknown(2),
        ModulePlan::Configured(ModuleKind::Security, 3),
    ]);
}
