use std::collections::HashMap;

use base64::Engine;

use proxy::access::IpAddress;
use proxy::config::{
    AccessListAuthEntry, AccessListClient, AccessListConfig, AppConfig, GlobalConfig, HostConfig,
    ListenConfig, LocationConfig, SslConfig, UpstreamConfig,
};
use proxy::dispatch::{finish_upstream, response_status, Plan, RequestAction, SharedState};
use proxy::upstream::create_upstream_selector;

fn global() -> GlobalConfig {
    GlobalConfig {
        listen: ListenConfig { http: 80, https: 443, admin: 81 },
        admin_upstream: "127.0.0.1:3001".to_string(),
        default_page: "/data/default-page/index.html".to_string(),
        error_pages_dir: "/data/error-pages".to_string(),
        logs_dir: "/data/logs".to_string(),
        ssl_dir: "/etc/letsencrypt".to_string(),
    }
}

fn build_app(hosts: Vec<HostConfig>, access_lists: HashMap<u64, AccessListConfig>) -> (SharedState, Vec<HostConfig>) {
    let config = AppConfig { global: global(), hosts: hosts.clone(), access_lists };
    (SharedState::build(config), hosts)
}

/// Stands in for the load balancer: literal addresses resolve to themselves and the
/// first backend is chosen.
fn resolve_request(
    app: &(SharedState, Vec<HostConfig>),
    host: Option<&str>,
    path: &str,
    port: Option<u16>,
    ip: Option<IpAddress>,
    auth: Option<&str>,
) -> RequestAction {
    match app.0.plan_request(host, path, port, ip, auth) {
        Plan::Done(a) => a,
        Plan::Upstream(u) => {
            let host = app.1.iter().find(|h| h.id == u.host_id).unwrap();
            let loc = &host.locations[u.location_index];
            let resolved: Vec<Option<String>> = loc
                .upstreams
                .iter()
                .map(|up| IpAddress::parse(&up.server).map(|_| format!("{}:{}", up.server, up.port)))
                .collect();
            let selected = create_upstream_selector(&loc.upstreams, &loc.balance_method, &resolved)
                .map(|p| p.backends[0].addr.clone());
            finish_upstream(u, selected)
        }
    }
}

fn ip(s: &str) -> IpAddress {
    IpAddress::parse(s).unwrap()
}

fn make_proxy_location(path: &str, server: &str, port: u16) -> LocationConfig {
    LocationConfig {
        path: path.to_string(),
        match_type: "prefix".to_string(),
        location_type: Some("proxy".to_string()),
        upstreams: vec![UpstreamConfig { server: server.to_string(), port, weight: 1 }],
        balance_method: "round_robin".to_string(),
        static_dir: None,
        cache_expires: None,
        forward_scheme: None,
        forward_domain: None,
        forward_path: None,
        preserve_path: false,
        status_code: None,
        headers: vec![],
        access_list_id: None,
    }
}

fn host(id: u64, domains: &[&str], locations: Vec<LocationConfig>) -> HostConfig {
    HostConfig {
        id,
        domains: domains.iter().map(|s| s.to_string()).collect(),
        group_id: None,
        ssl: None,
        locations,
        stream_ports: vec![],
        hsts: false,
        http2: false,
        enabled: true,
        redirect_www: false,
        compression: false,
    }
}

fn host_with_upstream(id: u64, domains: &[&str]) -> HostConfig {
    host(id, domains, vec![make_proxy_location("/", "10.0.0.1", 8080)])
}

fn host_with_ssl_force_https(id: u64, domains: &[&str]) -> HostConfig {
    let mut h = host_with_upstream(id, domains);
    h.ssl = Some(SslConfig {
        ssl_type: "letsencrypt".to_string(),
        force_https: true,
        cert_path: None,
        key_path: None,
    });
    h.hsts = true;
    h
}

fn host_with_acl(id: u64, domains: &[&str], acl_id: u64) -> HostConfig {
    let mut loc = make_proxy_location("/", "10.0.0.1", 8080);
    loc.access_list_id = Some(acl_id);
    host(id, domains, vec![loc])
}

fn host_with_static_location(id: u64, domains: &[&str]) -> HostConfig {
    let mut loc = make_proxy_location("/static", "10.0.0.1", 8080);
    loc.location_type = Some("static".to_string());
    loc.upstreams = vec![];
    loc.static_dir = Some("/var/www/static".to_string());
    loc.cache_expires = Some("30d".to_string());
    let mut h = host(id, domains, vec![loc]);
    h.group_id = Some(10);
    h
}

fn host_with_redirect_location(id: u64, domains: &[&str]) -> HostConfig {
    let mut loc = make_proxy_location("/", "10.0.0.1", 8080);
    loc.location_type = Some("redirect".to_string());
    loc.upstreams = vec![];
    loc.forward_scheme = Some("https".to_string());
    loc.forward_domain = Some("new.example.com".to_string());
    loc.forward_path = Some("/".to_string());
    loc.preserve_path = true;
    loc.status_code = Some(301);
    host(id, domains, vec![loc])
}

fn host_with_file_location(id: u64, domains: &[&str]) -> HostConfig {
    let mut loc = make_proxy_location("/sitemap.xml", "10.0.0.1", 8080);
    loc.match_type = "exact".to_string();
    loc.location_type = Some("file".to_string());
    loc.upstreams = vec![];
    loc.static_dir = Some("/var/www/sitemap.xml".to_string());
    loc.cache_expires = Some("1h".to_string());
    let mut h = host(id, domains, vec![loc]);
    h.group_id = Some(10);
    h
}

fn make_acl_deny_all(id: u64) -> AccessListConfig {
    AccessListConfig {
        id,
        name: "deny-all".to_string(),
        satisfy: "any".to_string(),
        clients: vec![AccessListClient { address: "all".to_string(), directive: "deny".to_string(), parsed_cidr: None }],
        auth: vec![],
    }
}

fn make_acl_with_auth(id: u64) -> AccessListConfig {
    AccessListConfig {
        id,
        name: "auth-required".to_string(),
        satisfy: "any".to_string(),
        clients: vec![],
        auth: vec![AccessListAuthEntry { username: "admin".to_string(), password: "secret".to_string() }],
    }
}

fn basic(text: &str) -> String {

    format!("Basic {}", base64::engine::general_purpose::STANDARD.encode(text))
}

#[test]
fn test_admin_port_routes_to_admin_upstream() {
    let app = build_app(vec![], HashMap::new());
    match resolve_request(&app, Some("anything.com"), "/", Some(81), None, None) {
        RequestAction::Proxy { upstream_addr, .. } => assert_eq!(upstream_addr, "127.0.0.1:3001"),
        _ => panic!("expected Proxy for admin port"),
    }
}

#[test]
fn test_admin_port_ignores_host_header() {
    let app = build_app(vec![host_with_upstream(1, &["evil.com"])], HashMap::new());
    match resolve_request(&app, Some("evil.com"), "/", Some(81), None, None) {
        RequestAction::Proxy { upstream_addr, .. } => assert_eq!(upstream_addr, "127.0.0.1:3001"),
        _ => panic!("expected admin Proxy"),
    }
}

#[test]
fn test_acme_challenge_path() {
    let app = build_app(vec![], HashMap::new());
    match resolve_request(&app, Some("example.com"), "/.well-known/acme-challenge/some-token-123", Some(80), None, None) {
        RequestAction::AcmeChallenge { token } => assert_eq!(token, "some-token-123"),
        _ => panic!("expected AcmeChallenge"),
    }
}

#[test]
fn test_acme_challenge_empty_token_not_matched() {
    let app = build_app(vec![], HashMap::new());
    let action = resolve_request(&app, Some("example.com"), "/.well-known/acme-challenge/", Some(80), None, None);
    assert!(!matches!(action, RequestAction::AcmeChallenge { .. }));
}

#[test]
fn test_acme_challenge_path_traversal_token() {
    let app = build_app(vec![], HashMap::new());
    match resolve_request(&app, Some("example.com"), "/.well-known/acme-challenge/../../etc/passwd", Some(80), None, None) {
        RequestAction::AcmeChallenge { token } => assert!(token.contains("..")),
        _ => panic!("expected AcmeChallenge"),
    }
}

#[test]
fn test_redirect_location_matched() {
    let app = build_app(vec![host_with_redirect_location(1, &["old.com"])], HashMap::new());
    match resolve_request(&app, Some("old.com"), "/path", Some(80), None, None) {
        RequestAction::Redirect { status_code, location } => {
            assert_eq!(status_code, 301);
            assert_eq!(location, "https://new.example.com/path");
        }
        _ => panic!("expected Redirect"),
    }
}

#[test]
fn test_unknown_host_serves_default() {
    let app = build_app(vec![], HashMap::new());
    let action = resolve_request(&app, Some("unknown.com"), "/", Some(80), None, None);
    assert!(matches!(action, RequestAction::ServeDefault { .. }));
}

#[test]
fn test_no_host_header_serves_default() {
    let app = build_app(vec![host_with_upstream(1, &["example.com"])], HashMap::new());
    let action = resolve_request(&app, None, "/", Some(80), None, None);
    assert!(matches!(action, RequestAction::ServeDefault { .. }));
}

#[test]
fn test_empty_host_header_serves_default() {
    let app = build_app(vec![host_with_upstream(1, &["example.com"])], HashMap::new());
    let action = resolve_request(&app, Some(""), "/", Some(80), None, None);
    assert!(matches!(action, RequestAction::ServeDefault { .. }));
}

#[test]
fn test_force_https_on_http_port() {
    let app = build_app(vec![host_with_ssl_force_https(1, &["secure.com"])], HashMap::new());
    match resolve_request(&app, Some("secure.com"), "/page", Some(80), None, None) {
        RequestAction::ForceHttps { location } => assert_eq!(location, "https://secure.com/page"),
        _ => panic!("expected ForceHttps"),
    }
}

#[test]
fn test_force_https_not_on_https_port() {
    let app = build_app(vec![host_with_ssl_force_https(1, &["secure.com"])], HashMap::new());
    let action = resolve_request(&app, Some("secure.com"), "/page", Some(443), Some(ip("10.0.0.1")), None);
    assert!(matches!(action, RequestAction::Proxy { .. }));
}

#[test]
fn test_access_denied_by_acl() {
    let mut acls = HashMap::new();
    acls.insert(1, make_acl_deny_all(1));
    let app = build_app(vec![host_with_acl(1, &["protected.com"], 1)], acls);
    let action = resolve_request(&app, Some("protected.com"), "/", Some(80), Some(ip("1.2.3.4")), None);
    assert!(matches!(action, RequestAction::AccessDenied { .. }));
}

#[test]
fn test_auth_required_by_acl() {
    let mut acls = HashMap::new();
    acls.insert(1, make_acl_with_auth(1));
    let app = build_app(vec![host_with_acl(1, &["auth.com"], 1)], acls);
    let action = resolve_request(&app, Some("auth.com"), "/", Some(80), Some(ip("1.2.3.4")), None);
    assert!(matches!(action, RequestAction::AuthRequired));
}

#[test]
fn test_auth_passes_with_valid_credentials() {
    let mut acls = HashMap::new();
    acls.insert(1, make_acl_with_auth(1));
    let app = build_app(vec![host_with_acl(1, &["auth.com"], 1)], acls);
    let auth = basic("admin:secret");
    let action = resolve_request(&app, Some("auth.com"), "/", Some(80), Some(ip("1.2.3.4")), Some(&auth));
    assert!(matches!(action, RequestAction::Proxy { .. }));
}

#[test]
fn test_auth_fails_with_wrong_password() {
    let mut acls = HashMap::new();
    acls.insert(1, make_acl_with_auth(1));
    let app = build_app(vec![host_with_acl(1, &["auth.com"], 1)], acls);
    let auth = basic("admin:WRONG");
    let action = resolve_request(&app, Some("auth.com"), "/", Some(80), Some(ip("1.2.3.4")), Some(&auth));
    assert!(matches!(action, RequestAction::AuthRequired));
}

#[test]
fn test_acl_id_not_found_allows_access() {
    let app = build_app(vec![host_with_acl(1, &["x.com"], 999)], HashMap::new());
    let action = resolve_request(&app, Some("x.com"), "/", Some(80), Some(ip("1.2.3.4")), None);
    assert!(matches!(action, RequestAction::Proxy { .. }));
}

#[test]
fn test_static_location_matched() {
    let app = build_app(vec![host_with_static_location(1, &["static.com"])], HashMap::new());
    match resolve_request(&app, Some("static.com"), "/static/file.js", Some(80), Some(ip("10.0.0.1")), None) {
        RequestAction::ServeStatic { static_dir, location_path, cache_expires, .. } => {
            assert_eq!(static_dir, "/var/www/static");
            assert_eq!(location_path, "/static");
            assert_eq!(cache_expires.unwrap(), "30d");
        }
        _ => panic!("expected ServeStatic"),
    }
}

#[test]
fn test_no_upstream_returns_502() {
    let app = build_app(vec![host(1, &["empty.com"], vec![])], HashMap::new());
    let action = resolve_request(&app, Some("empty.com"), "/", Some(80), Some(ip("10.0.0.1")), None);
    assert!(matches!(action, RequestAction::NoUpstream { .. }));
}

#[test]
fn test_null_bytes_in_host() {
    let app = build_app(vec![host_with_upstream(1, &["example.com"])], HashMap::new());
    let action = resolve_request(&app, Some("example.com\0.evil.com"), "/", Some(80), None, None);
    assert!(matches!(action, RequestAction::ServeDefault { .. }));
}

#[test]
fn test_very_long_host_header() {
    let app = build_app(vec![], HashMap::new());
    let long_host = "a".repeat(100_000);
    let action = resolve_request(&app, Some(&long_host), "/", Some(80), None, None);
    assert!(matches!(action, RequestAction::ServeDefault { .. }));
}

#[test]
fn test_very_long_path() {
    let app = build_app(vec![host_with_upstream(1, &["x.com"])], HashMap::new());
    let long_path = format!("/{}", "a".repeat(100_000));
    let action = resolve_request(&app, Some("x.com"), &long_path, Some(80), Some(ip("10.0.0.1")), None);
    assert!(matches!(action, RequestAction::Proxy { .. }));
}

#[test]
fn test_path_traversal_in_request() {
    let app = build_app(vec![host_with_upstream(1, &["x.com"])], HashMap::new());
    let action = resolve_request(&app, Some("x.com"), "/../../../etc/passwd", Some(80), Some(ip("10.0.0.1")), None);
    assert!(matches!(action, RequestAction::Proxy { .. }));
}

#[test]
fn test_xss_in_host_header() {
    let app = build_app(vec![], HashMap::new());
    let action = resolve_request(&app, Some("<script>alert(1)</script>"), "/", Some(80), None, None);
    assert!(matches!(action, RequestAction::ServeDefault { .. }));
}

#[test]
fn test_sql_injection_in_host() {
    let app = build_app(vec![], HashMap::new());
    let action = resolve_request(&app, Some("'; DROP TABLE hosts; --"), "/", Some(80), None, None);
    assert!(matches!(action, RequestAction::ServeDefault { .. }));
}

#[test]
fn test_malformed_auth_header_doesnt_crash() {
    let mut acls = HashMap::new();
    acls.insert(1, make_acl_with_auth(1));
    let app = build_app(vec![host_with_acl(1, &["x.com"], 1)], acls);
    let action = resolve_request(&app, Some("x.com"), "/", Some(80), Some(ip("1.2.3.4")), Some("NotBasic garbage!!!"));
    assert!(matches!(action, RequestAction::AuthRequired));
}

#[test]
fn test_no_server_port_no_force_https() {
    let app = build_app(vec![host_with_ssl_force_https(1, &["secure.com"])], HashMap::new());
    let action = resolve_request(&app, Some("secure.com"), "/", None, Some(ip("10.0.0.1")), None);
    assert!(matches!(action, RequestAction::Proxy { .. }));
}

#[test]
fn test_no_client_ip_for_lb() {
    let app = build_app(vec![host_with_upstream(1, &["x.com"])], HashMap::new());
    let action = resolve_request(&app, Some("x.com"), "/", Some(80), None, None);
    assert!(matches!(action, RequestAction::Proxy { .. }));
}

#[test]
fn test_ipv6_client_ip() {
    let app = build_app(vec![host_with_upstream(1, &["x.com"])], HashMap::new());
    let action = resolve_request(&app, Some("x.com"), "/", Some(80), Some(ip("::1")), None);
    assert!(matches!(action, RequestAction::Proxy { .. }));
}

#[test]
fn test_hsts_flag_propagated() {
    let app = build_app(vec![host_with_ssl_force_https(1, &["secure.com"])], HashMap::new());
    match resolve_request(&app, Some("secure.com"), "/", Some(443), Some(ip("10.0.0.1")), None) {
        RequestAction::Proxy { hsts, .. } => assert!(hsts),
        _ => panic!("expected Proxy"),
    }
}

#[test]
fn test_file_location_matched() {
    let app = build_app(vec![host_with_file_location(1, &["files.com"])], HashMap::new());
    match resolve_request(&app, Some("files.com"), "/sitemap.xml", Some(80), Some(ip("10.0.0.1")), None) {
        RequestAction::ServeFile { file_path, cache_expires, .. } => {
            assert_eq!(file_path, "/var/www/sitemap.xml");
            assert_eq!(cache_expires.unwrap(), "1h");
        }
        _ => panic!("expected ServeFile"),
    }
}

#[test]
fn scenario_default_when_no_host_configured() {
    let app = build_app(vec![], HashMap::new());
    match resolve_request(&app, Some("example.com"), "/", Some(80), None, None) {
        RequestAction::ServeDefault { default_page, error_pages_dir } => {
            assert_eq!(default_page, "/data/default-page/index.html");
            assert_eq!(error_pages_dir, "/data/error-pages");
        }
        _ => panic!("expected ServeDefault"),
    }
}

#[test]
fn scenario_redirect_preserving_path() {
    let mut h = host_with_redirect_location(1, &["old.com"]);
    h.locations[0].forward_domain = Some("new.com".to_string());
    let app = build_app(vec![h], HashMap::new());
    match resolve_request(&app, Some("old.com"), "/page", Some(80), None, None) {
        RequestAction::Redirect { status_code, location } => {
            assert_eq!(status_code, 301);
            assert_eq!(location, "https://new.com/page");
        }
        _ => panic!("expected Redirect"),
    }
}

#[test]
fn redirect_defaults_and_fixed_path() {
    let mut h = host_with_redirect_location(1, &["old.com"]);
    h.locations[0].forward_scheme = None;
    h.locations[0].forward_path = None;
    h.locations[0].status_code = None;
    h.locations[0].preserve_path = false;
    let app = build_app(vec![h], HashMap::new());
    match resolve_request(&app, Some("old.com"), "/page", Some(80), None, None) {
        RequestAction::Redirect { status_code, location } => {
            assert_eq!(status_code, 301);
            assert_eq!(location, "https://new.example.com/");
        }
        _ => panic!("expected Redirect"),
    }
}

#[test]
fn scenario_force_https_keeps_host_and_path() {
    let app = build_app(vec![host_with_ssl_force_https(1, &["secure.com"])], HashMap::new());
    match resolve_request(&app, Some("secure.com"), "/x", Some(80), None, None) {
        RequestAction::ForceHttps { location } => assert_eq!(location, "https://secure.com/x"),
        _ => panic!("expected ForceHttps"),
    }
}

#[test]
fn scenario_prefix_proxy_round_robin() {
    let mut loc = make_proxy_location("/v1", "10.0.0.1", 8080);
    loc.upstreams.push(UpstreamConfig { server: "10.0.0.2".to_string(), port: 8080, weight: 1 });
    let app = build_app(vec![host(1, &["api.example"], vec![loc])], HashMap::new());
    match app.0.plan_request(Some("api.example"), "/v1/items", Some(80), Some(ip("192.0.2.7")), None) {
        Plan::Upstream(u) => {
            assert_eq!(u.host_id, 1);
            assert_eq!(u.location_index, 0);
            assert_eq!(u.key, vec![192, 0, 2, 7]);
            assert!(!u.hsts);
        }
        _ => panic!("expected an upstream choice"),
    }
    match resolve_request(&app, Some("api.example"), "/v1/items", Some(80), Some(ip("192.0.2.7")), None) {
        RequestAction::Proxy { upstream_addr, hsts, .. } => {
            assert!(upstream_addr == "10.0.0.1:8080" || upstream_addr == "10.0.0.2:8080");
            assert!(!hsts);
        }
        _ => panic!("expected Proxy"),
    }
}

#[test]
fn scenario_acl_network_or_credentials() {
    let mut acls = HashMap::new();
    acls.insert(
        1,
        AccessListConfig {
            id: 1,
            name: "office".to_string(),
            satisfy: "any".to_string(),
            clients: vec![AccessListClient { address: "10.0.0.0/8".to_string(), directive: "allow".to_string(), parsed_cidr: None }],
            auth: vec![AccessListAuthEntry { username: "admin".to_string(), password: "secret".to_string() }],
        },
    );
    let app = build_app(vec![host_with_acl(1, &["acl.com"], 1)], acls);
    let client = Some(ip("1.2.3.4"));
    assert!(matches!(resolve_request(&app, Some("acl.com"), "/", Some(80), client, None), RequestAction::AuthRequired));
    assert!(matches!(
        resolve_request(&app, Some("acl.com"), "/", Some(80), client, Some("Basic YWRtaW46c2VjcmV0")),
        RequestAction::Proxy { .. }
    ));
    assert!(matches!(
        resolve_request(&app, Some("acl.com"), "/", Some(80), client, Some("Basic YWRtaW46V1JPTkc=")),
        RequestAction::AuthRequired
    ));
}

#[test]
fn scenario_acme_token() {
    let app = build_app(vec![host_with_upstream(1, &["x.com"])], HashMap::new());
    match resolve_request(&app, Some("x.com"), "/.well-known/acme-challenge/abc", Some(80), None, None) {
        RequestAction::AcmeChallenge { token } => assert_eq!(token, "abc"),
        _ => panic!("expected AcmeChallenge"),
    }
}

#[test]
fn admin_port_wins_over_everything() {
    let mut acls = HashMap::new();
    acls.insert(1, make_acl_deny_all(1));
    let app = build_app(vec![host_with_acl(1, &["p.com"], 1)], acls);
    let action = resolve_request(&app, Some("p.com"), "/.well-known/acme-challenge/t", Some(81), None, None);
    match action {
        RequestAction::Proxy { upstream_addr, host_id, hsts, custom_headers, .. } => {
            assert_eq!(upstream_addr, "127.0.0.1:3001");
            assert_eq!(host_id, None);
            assert!(!hsts);
            assert!(custom_headers.is_empty());
        }
        _ => panic!("expected admin Proxy"),
    }
}

#[test]
fn selector_answer_completes_the_plan() {
    let app = build_app(vec![host_with_upstream(4, &["z.com"])], HashMap::new());
    let plan = app.0.plan_request(Some("z.com"), "/", Some(80), Some(ip("::1")), None);
    let u = match plan {
        Plan::Upstream(u) => u,
        _ => panic!("expected an upstream choice"),
    };
    assert_eq!(u.key.len(), 16);
    assert_eq!(u.key[15], 1);
    match finish_upstream(u, None) {
        RequestAction::NoUpstream { host_id, .. } => assert_eq!(host_id, Some(4)),
        _ => panic!("expected NoUpstream"),
    }
}

#[test]
fn static_without_directory_has_no_upstream() {
    let mut h = host_with_static_location(1, &["s.com"]);
    h.locations[0].static_dir = None;
    let app = build_app(vec![h], HashMap::new());
    let action = resolve_request(&app, Some("s.com"), "/static/a", Some(80), None, None);
    assert!(matches!(action, RequestAction::NoUpstream { host_id: Some(1), group_id: Some(10), .. }));
}

#[test]
fn statuses_of_actions() {
    assert_eq!(response_status(&RequestAction::Redirect { status_code: 302, location: "x".to_string() }), Some(302));
    assert_eq!(response_status(&RequestAction::ForceHttps { location: "x".to_string() }), Some(301));
    assert_eq!(response_status(&RequestAction::AuthRequired), Some(401));
    let denied = RequestAction::AccessDenied { error_pages_dir: String::new(), host_id: None, group_id: None };
    assert_eq!(response_status(&denied), Some(403));
    let none = RequestAction::NoUpstream { error_pages_dir: String::new(), host_id: None, group_id: None };
    assert_eq!(response_status(&none), Some(502));
    assert_eq!(response_status(&RequestAction::AcmeChallenge { token: "t".to_string() }), None);
}
