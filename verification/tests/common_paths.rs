use webserver::security::{is_path_traversal, sanitize_path};
use webserver::security::headers::is_origin_allowed;
use webserver::text::{chars_of, string_of, u64_to_string};
use webserver::vhost::join_path_text;

#[test]
fn sanitize_path_collapses_slashes() {
    assert_eq!(sanitize_path("//a///b//"), "/a/b");
}

#[test]
fn sanitize_path_keeps_root() {
    assert_eq!(sanitize_path("/"), "/");
    assert_eq!(sanitize_path("///"), "/");
}

#[test]
fn sanitize_path_is_idempotent_on_examples() {
    for p in ["/a//b/", "//x", "/", "/a/b/c", "a//b"] {
        let once = sanitize_path(p);
        assert_eq!(sanitize_path(&once), once);
    }
}

#[test]
fn sanitized_path_has_no_double_slash_example() {
    let s = sanitize_path("/x////y//z///");
    assert!(!s.contains("//"));
    assert!(!s.ends_with('/') || s.len() == 1);
}

#[test]
fn path_traversal_detected() {
    assert!(is_path_traversal("/a/../b"));
    assert!(is_path_traversal("..\\windows"));
    assert!(!is_path_traversal("/a/b.c/d"));
    assert!(!is_path_traversal("/a/.."));
}

#[test]
fn origin_wildcard_allows_everything() {
    assert!(is_origin_allowed("https://example.com", &["*".to_string()]));
}

#[test]
fn origin_exact_and_suffix_rules() {
    let allowed = vec!["https://a.com".to_string(), "*.b.org".to_string()];
    assert!(is_origin_allowed("https://a.com", &allowed));
    assert!(!is_origin_allowed("https://c.com", &allowed));
    assert!(is_origin_allowed("https://x.b.org", &allowed));
    assert!(!is_origin_allowed("", &[]));
}

#[test]
fn wildcard_origin_admits_subdomains_only() {
    let allowed = vec!["*.example.com".to_string()];
    assert!(is_origin_allowed("https://api.example.com", &allowed));
    assert!(is_origin_allowed("https://a.b.example.com", &allowed));
    assert!(!is_origin_allowed("https://evilexample.com", &allowed));
    assert!(is_origin_allowed("example.com", &allowed));
}

#[test]
fn decimal_text_of_numbers() {
    assert_eq!(u64_to_string(0), "0");
    assert_eq!(u64_to_string(1024), "1024");
    assert_eq!(u64_to_string(u64::MAX), "18446744073709551615");
}

#[test]
fn chars_round_trip() {
    let c = chars_of("héllo");
    assert_eq!(c.len(), 5);
    assert_eq!(string_of(&c), "héllo");
}

#[test]
fn join_path_like_path_join() {
    assert_eq!(join_path_text("www", "a/b"), "www/a/b");
    assert_eq!(join_path_text("www/", "a"), "www/a");
    assert_eq!(join_path_text("www", "/abs"), "/abs");
    assert_eq!(join_path_text("", "a"), "a");
    assert_eq!(join_path_text("www", ""), "www/");
}
