use engine_bridge::addr::IpAddress;
use engine_bridge::policy::{
    normalize_host, ttl_duration, PolicyManager, RuleAction, ShapingConfig, MAX_HOSTS_PER_IP,
};

const STALE_GRACE_SECONDS: u64 = 5;

#[test]
fn tests_decision_follows_dns_mapping() {
    let mut manager = PolicyManager::new();
    manager.install_rule("*.example.com", RuleAction::Block);
    let addr = IpAddress::v4(203, 0, 113, 10);
    manager.observe_dns_mapping("Api.Example.com.", &[addr], Some(30), 0);
    let decision = manager.decision_for_ip(&addr, 0).expect("expected decision");
    assert_eq!(decision.host, "api.example.com");
    assert!(matches!(decision.action, RuleAction::Block));
}

#[test]
fn policy_decision_follows_dns_mapping() {
    let mut manager = PolicyManager::new();
    manager.install_rule("*.example.com", RuleAction::Block);
    let addr = IpAddress::v4(203, 0, 113, 10);
    manager.observe_dns_mapping("Api.Example.com.", &[addr], Some(30), 7_000);
    let decision = manager.decision_for_ip(&addr, 7_001).expect("expected decision");
    assert_eq!(decision.host, "api.example.com");
    assert!(matches!(decision.action, RuleAction::Block));
}

#[test]
fn tests_decision_returns_shape_config() {
    let mut manager = PolicyManager::new();
    let config = ShapingConfig { latency_ms: 150, jitter_ms: 20 };
    manager.install_rule("video.host", RuleAction::Shape(config));
    let addr = IpAddress::v4(198, 51, 100, 77);
    manager.observe_dns_mapping("video.host", &[addr], None, 0);
    let decision = manager.decision_for_ip(&addr, 0).expect("expected shape decision");
    match decision.action {
        RuleAction::Shape(shape) => assert_eq!(shape, config),
        _ => panic!("expected shape decision"),
    }
}

#[test]
fn policy_decision_returns_shape_config() {
    let mut manager = PolicyManager::new();
    let config = ShapingConfig { latency_ms: 150, jitter_ms: 20 };
    manager.install_rule("video.host", RuleAction::Shape(config));
    let addr = IpAddress::v4(198, 51, 100, 77);
    manager.observe_dns_mapping("video.host", &[addr], None, 12);
    let decision = manager.decision_for_ip(&addr, 59_000).expect("expected shape decision");
    match decision.action {
        RuleAction::Shape(shape) => assert_eq!(shape, config),
        _ => panic!("expected shape decision"),
    }
}

#[test]
fn tests_ttl_expiration_removes_mappings() {
    let mut manager = PolicyManager::new();
    manager.install_rule("*.ttl.test", RuleAction::Block);
    let addr = IpAddress::v4(192, 0, 2, 9);
    let start = 1_000_000u64;
    manager.observe_dns_mapping("api.ttl.test", &[addr], Some(1), start);
    assert!(manager.decision_for_ip(&addr, start).is_some());
    let later = start + 1100;
    assert!(
        manager.decision_for_ip(&addr, later).is_some(),
        "entry should survive ttl while within grace period"
    );
    let last = later + (STALE_GRACE_SECONDS * 1000) + 1500;
    assert!(manager.decision_for_ip(&addr, last).is_none());
}

#[test]
fn grace_window_ends_five_seconds_after_expiry() {
    let addr = IpAddress::v4(192, 0, 2, 9);
    let mut manager = PolicyManager::new();
    manager.install_rule("*.ttl.test", RuleAction::Block);
    manager.observe_dns_mapping("api.ttl.test", &[addr], Some(10), 0);
    assert_eq!(manager.decision_for_ip(&addr, 15_000).map(|d| d.host), Some("api.ttl.test".to_string()));
    let mut other = PolicyManager::new();
    other.install_rule("*.ttl.test", RuleAction::Block);
    other.observe_dns_mapping("api.ttl.test", &[addr], Some(10), 0);
    assert!(other.decision_for_ip(&addr, 15_001).is_none());
    // The observation has left the store: it does not come back.
    assert!(other.decision_for_ip(&addr, 0).is_none());
}

#[test]
fn literal_rule_decides_at_once() {
    let mut manager = PolicyManager::new();
    let config = ShapingConfig { latency_ms: 5, jitter_ms: 1 };
    let id = manager.install_rule("203.0.113.99", RuleAction::Shape(config));
    assert_eq!(id, 1);
    let decision = manager.decision_for_ip(&IpAddress::v4(203, 0, 113, 99), 0).expect("decision");
    assert_eq!(decision.host, "203.0.113.99");
    assert_eq!(decision.action, RuleAction::Shape(config));
    assert!(manager.decision_for_ip(&IpAddress::v4(203, 0, 113, 98), 0).is_none());
    let six = manager.install_rule("2001:DB8::1", RuleAction::Block);
    assert_eq!(six, 2);
    let decision = manager
        .decision_for_ip(&IpAddress::V6(0x2001_0db8_0000_0000_0000_0000_0000_0001), 0)
        .expect("decision");
    assert_eq!(decision.action, RuleAction::Block);
}

#[test]
fn removing_a_rule_removes_its_shortcut() {
    let mut manager = PolicyManager::new();
    let addr = IpAddress::v4(10, 1, 2, 3);
    let first = manager.install_rule("10.1.2.3", RuleAction::Block);
    let second = manager.install_rule("10.1.2.3", RuleAction::Block);
    assert!(manager.remove_rule(first));
    assert!(manager.decision_for_ip(&addr, 0).is_some());
    assert!(manager.remove_rule(second));
    assert!(manager.decision_for_ip(&addr, 0).is_none());
    assert!(!manager.remove_rule(second));
    assert!(!manager.remove_rule(77));
}

#[test]
fn newest_matching_rule_wins() {
    let mut manager = PolicyManager::new();
    manager.install_rule("*.example.com", RuleAction::Block);
    let shape = ShapingConfig { latency_ms: 1, jitter_ms: 2 };
    manager.install_rule("api.*", RuleAction::Shape(shape));
    assert_eq!(manager.match_host("API.example.com"), Some(RuleAction::Shape(shape)));
    assert_eq!(manager.match_host("www.example.com"), Some(RuleAction::Block));
    assert_eq!(manager.match_host("example.org"), None);
    manager.install_rule("a?c", RuleAction::Block);
    assert_eq!(manager.match_host("abc"), Some(RuleAction::Block));
    assert_eq!(manager.match_host("abbc"), None);
    manager.clear();
    assert_eq!(manager.match_host("abc"), None);
}

#[test]
fn fresh_hosts_go_before_stale_ones() {
    let mut manager = PolicyManager::new();
    manager.install_rule("*.old.test", RuleAction::Block);
    let shape = ShapingConfig { latency_ms: 9, jitter_ms: 0 };
    manager.install_rule("*.new.test", RuleAction::Shape(shape));
    let addr = IpAddress::v4(192, 0, 2, 50);
    manager.observe_dns_mapping("a.new.test", &[addr], Some(1), 0);
    manager.observe_dns_mapping("b.old.test", &[addr], Some(100), 0);
    // Both fresh: the newest observation decides.
    assert_eq!(manager.decision_for_ip(&addr, 500).map(|d| d.host), Some("b.old.test".to_string()));
    manager.observe_dns_mapping("a.new.test", &[addr], Some(1), 600);
    // The first host was seen again, but keeps its place behind the second.
    assert_eq!(manager.decision_for_ip(&addr, 700).map(|d| d.host), Some("b.old.test".to_string()));
    let mut stale = PolicyManager::new();
    stale.install_rule("*.test", RuleAction::Block);
    stale.observe_dns_mapping("fresh.test", &[addr], Some(100), 0);
    stale.observe_dns_mapping("stale.test", &[addr], Some(1), 0);
    assert_eq!(stale.decision_for_ip(&addr, 2_000).map(|d| d.host), Some("fresh.test".to_string()));
}

#[test]
fn oldest_host_leaves_when_an_address_is_full() {
    let mut manager = PolicyManager::new();
    manager.install_rule("host0.test", RuleAction::Block);
    let addr = IpAddress::v4(192, 0, 2, 60);
    for i in 0..MAX_HOSTS_PER_IP {
        manager.observe_dns_mapping(&format!("host{}.test", i), &[addr], None, 0);
    }
    assert!(manager.decision_for_ip(&addr, 1).is_some());
    manager.observe_dns_mapping("one.more.test", &[addr], None, 1);
    assert!(manager.decision_for_ip(&addr, 2).is_none());
}

#[test]
fn hosts_and_lifetimes_are_normalised() {
    assert_eq!(normalize_host("  Api.Example.COM.. "), Some("api.example.com".to_string()));
    assert_eq!(normalize_host(" . "), None);
    assert_eq!(normalize_host(""), None);
    assert_eq!(ttl_duration(None), 60_000);
    assert_eq!(ttl_duration(Some(0)), 1_000);
    assert_eq!(ttl_duration(Some(30)), 30_000);
    assert_eq!(ttl_duration(Some(3600)), 3_600_000);
    assert_eq!(ttl_duration(Some(u32::MAX)), 3_600_000);
    let mut manager = PolicyManager::new();
    manager.install_rule("*", RuleAction::Block);
    let addr = IpAddress::v4(192, 0, 2, 61);
    manager.observe_dns_mapping(" . ", &[addr], None, 0);
    manager.observe_dns_mapping("host.test", &[], None, 0);
    assert!(manager.decision_for_ip(&addr, 0).is_none());
}
