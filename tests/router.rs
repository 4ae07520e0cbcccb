use proxy::config::{HostConfig, LocationConfig, UpstreamConfig};
use proxy::router::Router;

fn make_host(id: u64, domains: &[&str], locations: Vec<LocationConfig>, enabled: bool) -> HostConfig {
    HostConfig {
        id,
        domains: domains.iter().map(|s| s.to_string()).collect(),
        group_id: None,
        ssl: None,
        locations,
        stream_ports: vec![],
        hsts: false,
        http2: false,
        enabled,
        redirect_www: false,
        compression: false,
    }
}

fn make_location(path: &str, match_type: &str) -> LocationConfig {
    LocationConfig {
        path: path.to_string(),
        match_type: match_type.to_string(),
        location_type: Some("proxy".to_string()),
        upstreams: vec![UpstreamConfig { server: "127.0.0.1".into(), port: 8080, weight: 1 }],
        balance_method: "round_robin".to_string(),
        static_dir: None,
        cache_expires: None,
        forward_scheme: None,
        forward_domain: None,
        forward_path: None,
        preserve_path: false,
        status_code: None,
        headers: vec![],
        access_list_id: None,
    }
}

#[test]
fn test_resolve_known_domain() {
    let router = Router::build(vec![make_host(1, &["example.com"], vec![], true)]);
    let result = router.resolve("example.com", "/");
    assert!(result.is_some());
    assert_eq!(result.unwrap().0.id, 1);
}

#[test]
fn test_resolve_unknown_domain() {
    let router = Router::build(vec![make_host(1, &["example.com"], vec![], true)]);
    assert!(router.resolve("unknown.com", "/").is_none());
}

#[test]
fn test_resolve_case_insensitive() {
    let router = Router::build(vec![make_host(1, &["example.com"], vec![], true)]);
    assert!(router.resolve("Example.COM", "/").is_some());
}

#[test]
fn test_resolve_strips_port() {
    let router = Router::build(vec![make_host(1, &["example.com"], vec![], true)]);
    assert!(router.resolve("example.com:8080", "/").is_some());
}

#[test]
fn test_disabled_host_skipped() {
    let router = Router::build(vec![make_host(1, &["example.com"], vec![], false)]);
    assert!(router.resolve("example.com", "/").is_none());
}

#[test]
fn test_prefix_match() {
    let locs = vec![make_location("/api", "prefix")];
    let router = Router::build(vec![make_host(1, &["example.com"], locs, true)]);
    let (_, loc, _) = router.resolve("example.com", "/api/users").unwrap();
    assert!(loc.is_some());
    assert_eq!(loc.unwrap().path, "/api");
}

#[test]
fn test_prefix_no_match() {
    let locs = vec![make_location("/api", "prefix")];
    let router = Router::build(vec![make_host(1, &["example.com"], locs, true)]);
    let (_, loc, _) = router.resolve("example.com", "/other").unwrap();
    assert!(loc.is_none());
}

#[test]
fn test_exact_match() {
    let locs = vec![make_location("/health", "exact")];
    let router = Router::build(vec![make_host(1, &["example.com"], locs, true)]);
    let (_, loc, _) = router.resolve("example.com", "/health").unwrap();
    assert!(loc.is_some());
    let (_, loc, _) = router.resolve("example.com", "/health/check").unwrap();
    assert!(loc.is_none());
}

#[test]
fn test_regex_match() {
    let locs = vec![make_location(r"^/files/.*\.pdf$", "regex")];
    let router = Router::build(vec![make_host(1, &["example.com"], locs, true)]);
    let (_, loc, _) = router.resolve("example.com", "/files/report.pdf").unwrap();
    assert!(loc.is_some());
}

#[test]
fn test_empty_host_header() {
    let router = Router::build(vec![make_host(1, &["example.com"], vec![], true)]);
    assert!(router.resolve("", "/").is_none());
}

#[test]
fn test_host_with_null_byte() {
    let router = Router::build(vec![make_host(1, &["example.com"], vec![], true)]);
    assert!(router.resolve("example.com\0.evil.com", "/").is_none());
}

#[test]
fn test_host_with_path_injection() {
    let router = Router::build(vec![make_host(1, &["example.com"], vec![], true)]);
    assert!(router.resolve("example.com/admin", "/").is_none());
}

#[test]
fn test_host_with_at_sign_injection() {
    let router = Router::build(vec![make_host(1, &["example.com"], vec![], true)]);
    assert!(router.resolve("attacker@example.com", "/").is_none());
}

#[test]
fn test_host_with_unicode_homoglyph() {
    let router = Router::build(vec![make_host(1, &["example.com"], vec![], true)]);
    assert!(router.resolve("exаmple.com", "/").is_none());
}

#[test]
fn test_host_only_port() {
    let router = Router::build(vec![make_host(1, &["example.com"], vec![], true)]);
    assert!(router.resolve(":8080", "/").is_none());
}

#[test]
fn test_host_multiple_colons() {
    let router = Router::build(vec![make_host(1, &["example.com"], vec![], true)]);
    assert!(router.resolve("example.com:80:extra", "/").is_some());
}

#[test]
fn test_path_traversal_in_prefix_match() {
    let locs = vec![make_location("/api", "prefix")];
    let router = Router::build(vec![make_host(1, &["example.com"], locs, true)]);
    let (_, loc, _) = router.resolve("example.com", "/api/../admin").unwrap();
    assert!(loc.is_some());
}

#[test]
fn test_exact_match_rejects_traversal() {
    let locs = vec![make_location("/health", "exact")];
    let router = Router::build(vec![make_host(1, &["example.com"], locs, true)]);
    let (_, loc, _) = router.resolve("example.com", "/health/../secret").unwrap();
    assert!(loc.is_none());
}

#[test]
fn test_regex_catastrophic_backtracking_resilience() {
    let locs = vec![make_location(r"^/files/\d+$", "regex")];
    let router = Router::build(vec![make_host(1, &["example.com"], locs, true)]);
    let long_path = format!("/files/{}", "1".repeat(10000));
    let (_, loc, _) = router.resolve("example.com", &long_path).unwrap();
    assert!(loc.is_some());
}

#[test]
fn test_invalid_regex_is_skipped() {
    let locs = vec![make_location("[invalid", "regex")];
    let router = Router::build(vec![make_host(1, &["example.com"], locs, true)]);
    let (_, loc, _) = router.resolve("example.com", "/anything").unwrap();
    assert!(loc.is_none());
}

#[test]
fn test_empty_path() {
    let locs = vec![make_location("/", "prefix")];
    let router = Router::build(vec![make_host(1, &["example.com"], locs, true)]);
    let (_, loc, _) = router.resolve("example.com", "").unwrap();
    assert!(loc.is_none());
}

#[test]
fn test_null_bytes_in_path() {
    let locs = vec![make_location("/api", "prefix")];
    let router = Router::build(vec![make_host(1, &["example.com"], locs, true)]);
    let (_, loc, _) = router.resolve("example.com", "/api\0/admin").unwrap();
    assert!(loc.is_some());
}

#[test]
fn test_duplicate_domain_last_wins() {
    let router = Router::build(vec![
        make_host(1, &["dup.com"], vec![], true),
        make_host(2, &["dup.com"], vec![], true),
    ]);
    let (host, _, _) = router.resolve("dup.com", "/").unwrap();
    assert_eq!(host.id, 2);
}

#[test]
fn test_has_domain_with_empty_router() {
    let router = Router::build(vec![]);
    assert!(!router.has_domain("anything.com"));
}

#[test]
fn test_very_long_domain() {
    let long_domain = format!("{}.com", "a".repeat(1000));
    let router = Router::build(vec![make_host(1, &[&long_domain], vec![], true)]);
    assert!(router.resolve(&long_domain, "/").is_some());
}

#[test]
fn specificity_order_and_configured_index() {
    let locs = vec![
        make_location("^/a", "regex"),
        make_location("/a", "prefix"),
        make_location("/a/b", "prefix"),
        make_location("/a/b/c", "exact"),
    ];
    let router = Router::build(vec![make_host(1, &["s.com"], locs, true)]);
    let (_, loc, idx) = router.resolve("s.com", "/a/b/c").unwrap();
    assert_eq!(loc.unwrap().match_type, "exact");
    assert_eq!(idx, Some(3));
    let (_, loc, idx) = router.resolve("s.com", "/a/b/x").unwrap();
    assert_eq!(loc.unwrap().path, "/a/b");
    assert_eq!(idx, Some(2));
    let (_, _, idx) = router.resolve("s.com", "/a").unwrap();
    assert_eq!(idx, Some(1));
    let (_, loc, idx) = router.resolve("s.com", "/ab").unwrap();
    assert_eq!(loc.unwrap().path, "/a");
    assert_eq!(idx, Some(1));
}

#[test]
fn regexes_keep_configuration_order() {
    let locs = vec![make_location("x$", "regex"), make_location("^/", "regex")];
    let router = Router::build(vec![make_host(1, &["r.com"], locs, true)]);
    let (_, _, idx) = router.resolve("r.com", "/box").unwrap();
    assert_eq!(idx, Some(0));
    let (_, _, idx) = router.resolve("r.com", "/boy").unwrap();
    assert_eq!(idx, Some(1));
}

#[test]
fn redirect_www_adds_www_form() {
    let mut h = make_host(5, &["Example.org", "www.other.org"], vec![], true);
    h.redirect_www = true;
    let router = Router::build(vec![h]);
    assert!(router.has_domain("www.example.org"));
    assert!(router.has_domain("example.org"));
    assert!(router.has_domain("www.other.org"));
    assert!(!router.has_domain("www.www.other.org"));
}

#[test]
fn host_lookup_ignores_case_and_port() {
    let locs = vec![make_location("/p", "prefix")];
    let router = Router::build(vec![make_host(9, &["ex.com"], locs, true)]);
    let a = router.resolve("Ex.COM:8080", "/p/q").map(|(h, l, i)| (h.id, l.map(|l| l.path.clone()), i));
    let b = router.resolve("ex.com", "/p/q").map(|(h, l, i)| (h.id, l.map(|l| l.path.clone()), i));
    assert_eq!(a, b);
    assert_eq!(Router::normalize_host("Ex.COM:8080"), "ex.com".chars().collect::<Vec<char>>());
}

#[test]
fn prefix_matches_unnormalised_path_exact_does_not() {
    let router = Router::build(vec![make_host(1, &["b.com"], vec![make_location("/api", "prefix")], true)]);
    assert!(router.resolve("b.com", "/api/../x").unwrap().1.is_some());
    let router = Router::build(vec![make_host(1, &["b.com"], vec![make_location("/api", "exact")], true)]);
    assert!(router.resolve("b.com", "/api/../x").unwrap().1.is_none());
}
