use proxy::access::IpAddress;
use proxy::config::{HostConfig, LocationConfig, UpstreamConfig};
use proxy::upstream::{create_upstream_selector, selector_slots, selection_kind, stream_upstream_index, SelectionKind, SelectorPlan};

fn upstream(server: &str, port: u16, weight: usize) -> UpstreamConfig {
    UpstreamConfig { server: server.to_string(), port, weight }
}

/// Literal addresses resolve to themselves; names do not resolve here.
fn resolve(ups: &[UpstreamConfig]) -> Vec<Option<String>> {
    ups.iter()
        .map(|u| match IpAddress::parse(&u.server) {
            Some(IpAddress::V4(_)) => Some(format!("{}:{}", u.server, u.port)),
            Some(IpAddress::V6(_)) => Some(format!("[{}]:{}", u.server, u.port)),
            None => None,
        })
        .collect()
}

fn create(ups: &[UpstreamConfig], method: &str) -> Option<SelectorPlan> {
    let ups = ups.to_vec();
    create_upstream_selector(&ups, method, &resolve(&ups))
}

#[test]
fn test_round_robin_single_upstream() {
    let sel = create(&[upstream("127.0.0.1", 8080, 1)], "round_robin");
    assert!(sel.is_some());
}

#[test]
fn test_ip_hash_creates_consistent_selector() {
    let sel = create(&[upstream("10.0.0.1", 8080, 1), upstream("10.0.0.2", 8080, 1)], "ip_hash");
    assert!(sel.is_some());
    assert_eq!(sel.unwrap().kind, SelectionKind::Consistent);
}

#[test]
fn test_random_selector() {
    let sel = create(&[upstream("10.0.0.1", 8080, 1), upstream("10.0.0.2", 8080, 1)], "random");
    assert!(sel.is_some());
    assert_eq!(sel.unwrap().kind, SelectionKind::Random);
}

#[test]
fn test_weighted_falls_back_to_round_robin() {
    let sel = create(&[upstream("10.0.0.1", 8080, 5), upstream("10.0.0.2", 8080, 1)], "weighted");
    assert!(sel.is_some());
    assert_eq!(sel.unwrap().kind, SelectionKind::RoundRobin);
}

#[test]
fn test_least_connections_falls_back_to_round_robin() {
    let sel = create(&[upstream("10.0.0.1", 8080, 1)], "least_connections");
    assert!(sel.is_some());
}

#[test]
fn test_unknown_method_falls_back_to_round_robin() {
    let sel = create(&[upstream("10.0.0.1", 8080, 1)], "totally_unknown_method");
    assert!(sel.is_some());
}

#[test]
fn test_empty_upstreams_returns_none() {
    let sel = create(&[], "round_robin");
    assert!(sel.is_none());
}

#[test]
fn test_empty_method_string() {
    let sel = create(&[upstream("10.0.0.1", 8080, 1)], "");
    assert!(sel.is_some());
}

#[test]
fn test_garbage_server_address() {
    let sel = create(&[upstream("not-a-valid-ip-address!!!", 8080, 1)], "round_robin");
    let _ = sel;
}

#[test]
fn test_injection_in_server_name() {
    let _ = create(&[upstream("127.0.0.1; rm -rf /", 8080, 1)], "round_robin");
}

#[test]
fn test_server_with_null_bytes() {
    let _ = create(&[upstream("127.0.0\x001", 8080, 1)], "round_robin");
}

#[test]
fn test_zero_weight_upstream() {
    let sel = create(&[upstream("127.0.0.1", 8080, 0)], "round_robin");
    let _ = sel;
}

#[test]
fn test_port_zero() {
    let sel = create(&[upstream("127.0.0.1", 0, 1)], "round_robin");
    assert!(sel.is_some());
}

#[test]
fn test_port_max() {
    let sel = create(&[upstream("127.0.0.1", 65535, 1)], "round_robin");
    assert!(sel.is_some());
}

#[test]
fn test_ipv6_server() {
    let sel = create(&[upstream("::1", 8080, 1)], "round_robin");
    let _ = sel;
}

#[test]
fn test_all_invalid_upstreams_returns_none() {
    let sel = create(&[upstream("", 0, 0)], "round_robin");
    let _ = sel;
}

#[test]
fn test_duplicate_upstream_addresses() {
    let sel = create(&[upstream("10.0.0.1", 8080, 1), upstream("10.0.0.1", 8080, 1)], "round_robin");
    assert!(sel.is_some());
    assert_eq!(sel.unwrap().backends.len(), 1);
}

#[test]
fn test_very_large_weight() {
    let sel = create(&[upstream("10.0.0.1", 8080, usize::MAX)], "weighted");
    let _ = sel;
}

#[test]
fn unresolved_upstreams_are_dropped_and_order_kept() {
    let ups = vec![upstream("b.internal", 80, 1), upstream("10.0.0.2", 81, 3), upstream("10.0.0.1", 80, 0)];
    let resolved = vec![None, Some("10.0.0.2:81".to_string()), Some("10.0.0.1:80".to_string())];
    let plan = create_upstream_selector(&ups, "round_robin", &resolved).unwrap();
    assert_eq!(plan.backends.len(), 2);
    assert_eq!(plan.backends[0].addr, "10.0.0.2:81");
    assert_eq!(plan.backends[0].weight, 3);
    assert_eq!(plan.backends[1].weight, 0);
    let none = create_upstream_selector(&ups[..1].to_vec(), "round_robin", &vec![None]);
    assert!(none.is_none());
}

#[test]
fn methods_map_to_policies() {
    assert_eq!(selection_kind("ip_hash"), SelectionKind::Consistent);
    assert_eq!(selection_kind("random"), SelectionKind::Random);
    assert_eq!(selection_kind("round_robin"), SelectionKind::RoundRobin);
    assert_eq!(selection_kind("IP_HASH"), SelectionKind::RoundRobin);
}

#[test]
fn stream_round_robin_index() {
    assert_eq!(stream_upstream_index(0, 3), Some(0));
    assert_eq!(stream_upstream_index(7, 3), Some(1));
    assert_eq!(stream_upstream_index(5, 0), None);
}

fn location(upstreams: Vec<UpstreamConfig>) -> LocationConfig {
    LocationConfig {
        path: "/".to_string(),
        match_type: "prefix".to_string(),
        location_type: None,
        upstreams,
        balance_method: "round_robin".to_string(),
        static_dir: None,
        cache_expires: None,
        forward_scheme: None,
        forward_domain: None,
        forward_path: None,
        preserve_path: false,
        status_code: None,
        headers: vec![],
        access_list_id: None,
    }
}

fn host(id: u64, enabled: bool, locations: Vec<LocationConfig>) -> HostConfig {
    HostConfig {
        id,
        domains: vec![],
        group_id: None,
        ssl: None,
        locations,
        stream_ports: vec![],
        hsts: false,
        http2: false,
        enabled,
        redirect_www: false,
        compression: false,
    }
}

#[test]
fn selectors_for_enabled_locations_with_upstreams() {
    let hosts = vec![
        host(1, true, vec![location(vec![]), location(vec![upstream("10.0.0.1", 80, 1)])]),
        host(2, false, vec![location(vec![upstream("10.0.0.2", 80, 1)])]),
        host(3, true, vec![location(vec![upstream("10.0.0.3", 80, 1)])]),
    ];
    assert_eq!(selector_slots(&hosts), vec![(1, 1), (3, 0)]);
}
