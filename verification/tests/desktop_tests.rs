use freeix::desktop::{
    update_message, default_providers, event_of, protection_server_config, AppConfig, AppCore, LiveStats, QueryEvent, QueryStatus,
};
use freeix::dns::QueryInfo;
use freeix::filter::FilterResult;
use freeix::stats::QueryCounters;
use freeix::upstream::{socket_v4, UpstreamProvider};

fn info(domain: &str, blocked: bool, cached: bool) -> QueryInfo {
    QueryInfo {
        domain: domain.to_string(),
        query_type: "A".to_string(),
        blocked,
        cached,
        rule: if blocked { Some(domain.to_string()) } else { None },
        response_time_ms: 3,
    }
}

fn event(ts: u64, domain: &str, status: QueryStatus) -> QueryEvent {
    QueryEvent {
        timestamp: ts,
        domain: domain.to_string(),
        query_type: "A".to_string(),
        status,
        response_time_ms: 1,
        upstream: String::new(),
        rule: None,
    }
}

#[test]
fn defaults() {
    let c = AppConfig::default();
    assert_eq!(c.dns_provider_id, "adguard");
    assert!(!c.auto_start && c.dark_mode && !c.setup_complete);
    assert_eq!((c.cache_size, c.listen_address.as_str(), c.port), (10000, "127.0.0.1", 53));
    let p = default_providers();
    assert_eq!(p.len(), 5);
    assert_eq!(p[1].id, "cloudflare-family");
    assert_eq!(p[3].secondary, "149.112.112.112");
    assert_eq!((p[2].primary.as_str(), p[2].secondary.as_str()), ("194.242.2.2", "194.242.2.3"));
}

#[test]
fn new_core_blocks_browser_doh() {
    let core = AppCore::new(AppConfig::default());
    assert!(!core.is_protection_enabled());
    assert!(matches!(core.filter().is_blocked("dns.google"), FilterResult::Blocked { .. }));
    assert!(matches!(core.filter().is_blocked("mozilla.cloudflare-dns.com"), FilterResult::Blocked { .. }));
    assert!(matches!(core.filter().is_blocked("example.com"), FilterResult::NotMatched));
    assert_eq!(core.status().total_rules, 22);
    assert!(core.get_logs(None).is_empty());
}

#[test]
fn log_is_newest_first_and_bounded() {
    let mut core = AppCore::new(AppConfig::default());
    for i in 0..10_000u64 {
        core.push_log(event(i, "a.com", QueryStatus::Allowed));
    }
    assert_eq!(core.get_logs(Some(usize::MAX)).len(), 10_000);
    core.push_log(event(10_000, "b.com", QueryStatus::Blocked));
    let all = core.get_logs(Some(usize::MAX));
    assert_eq!(all.len(), 5_001);
    assert_eq!(all[0].timestamp, 10_000);
    assert_eq!(all[5_000].timestamp, 5_000);
    let recent = core.get_logs(None);
    assert_eq!(recent.len(), 200);
    assert_eq!(core.get_logs(Some(2)).len(), 2);
}

#[test]
fn queries_are_counted_and_logged() {
    let mut core = AppCore::new(AppConfig::default());
    core.record_query(&info("ads.com", true, false), 100);
    core.record_query(&info("ok.com", false, true), 101);
    core.record_query(&info("new.com", false, false), 102);
    let s = core.stats();
    assert_eq!((s.total_queries, s.blocked_queries, s.cache_hits), (3, 1, 1));
    let logs = core.get_logs(None);
    assert_eq!(logs[0].status, QueryStatus::Allowed);
    assert_eq!(logs[1].status, QueryStatus::Cached);
    assert_eq!(logs[2].status, QueryStatus::Blocked);
    assert_eq!(logs[2].rule.as_deref(), Some("ads.com"));
    let e = event_of(&info("x.com", true, true), 7);
    assert_eq!(e.status, QueryStatus::Blocked);
    assert_eq!(e.upstream, "");
}

#[test]
fn most_blocked_domains() {
    let mut core = AppCore::new(AppConfig::default());
    for (d, n) in [("a.com", 3u64), ("b.com", 5), ("c.com", 1)] {
        for _ in 0..n {
            core.push_log(event(0, d, QueryStatus::Blocked));
        }
    }
    core.push_log(event(0, "d.com", QueryStatus::Allowed));
    let top = core.top_blocked();
    let got: Vec<(String, u64)> = top.into_iter().map(|t| (t.domain, t.count)).collect();
    assert_eq!(got, vec![("b.com".to_string(), 5), ("a.com".to_string(), 3), ("c.com".to_string(), 1)]);
}

#[test]
fn most_blocked_keeps_twenty() {
    let mut core = AppCore::new(AppConfig::default());
    for i in 0..25u64 {
        for _ in 0..(i + 1) {
            core.push_log(event(0, &format!("d{}.com", i), QueryStatus::Blocked));
        }
    }
    let top = core.top_blocked();
    assert_eq!(top.len(), 20);
    assert_eq!(top[0].domain, "d24.com");
    assert_eq!(top[0].count, 25);
    assert_eq!(top[19].count, 6);
}

#[test]
fn allow_and_block_lists() {
    let mut core = AppCore::new(AppConfig::default());
    core.add_blacklist("Ads.Example.com");
    core.add_blacklist("ads.example.com");
    assert_eq!(core.get_blacklist(), vec!["ads.example.com"]);
    assert!(matches!(core.filter().is_blocked("ads.example.com"), FilterResult::Blocked { .. }));
    core.add_whitelist("dns.google");
    assert!(matches!(core.filter().is_blocked("dns.google"), FilterResult::Allowed { .. }));
    core.remove_whitelist("DNS.GOOGLE");
    assert!(core.get_whitelist().is_empty());
    // Removing the allow rule leaves the built-in block of that name.
    assert!(matches!(core.filter().is_blocked("dns.google"), FilterResult::Blocked { .. }));
    core.remove_blacklist("ads.example.com");
    assert!(core.get_blacklist().is_empty());
    assert!(matches!(core.filter().is_blocked("ads.example.com"), FilterResult::NotMatched));
    core.add_blocked_domains(vec!["x.com".to_string(), "y.com".to_string()]);
    assert!(matches!(core.filter().is_blocked("y.com"), FilterResult::Blocked { .. }));
}

#[test]
fn provider_selection_and_plan() {
    let mut core = AppCore::new(AppConfig::default());
    assert_eq!(core.get_dns_providers().len(), 5);
    assert_eq!(core.set_dns_provider("nope"), Err("DNS provider 'nope' not found".to_string()));
    assert_eq!(core.config().dns_provider_id, "adguard");
    core.set_dns_provider("quad9").unwrap();
    assert_eq!(core.selected_provider().name, "Quad9");
    let plan = core.protection_plan();
    assert_eq!(plan.primary_address, "9.9.9.9:53");
    assert_eq!(plan.secondary_address, "149.112.112.112:53");
    assert_eq!(plan.listen_address, "127.0.0.1:53");
    assert_eq!(plan.system_dns, vec!["127.0.0.1"]);
    let mut cfg = AppConfig::default();
    cfg.dns_provider_id = "gone".to_string();
    cfg.port = 5353;
    core.update_config(cfg);
    assert_eq!(core.selected_provider().id, "adguard");
    assert_eq!(core.protection_plan().listen_address, "127.0.0.1:5353");
    assert_eq!(core.status().dns_provider, "gone");
}

#[test]
fn protection_state() {
    let mut core = AppCore::new(AppConfig::default());
    assert_eq!(core.status().uptime_seconds, 0);
    core.set_protection(true);
    core.mark_started();
    assert!(core.status().enabled);
    core.set_protection(false);
    assert!(!core.is_protection_enabled());
}

#[test]
fn server_config_for_protection() {
    let c = protection_server_config(
        socket_v4(127, 0, 0, 1, 53),
        socket_v4(9, 9, 9, 9, 53),
        socket_v4(149, 112, 112, 112, 53),
        500,
    );
    assert_eq!(c.cache_size, 500);
    assert_eq!(c.upstream.retries, 2);
    match &c.upstream.providers[0] {
        UpstreamProvider::Custom(es) => {
            assert_eq!(es.len(), 2);
            assert_eq!(es[1].address, socket_v4(149, 112, 112, 112, 53));
            assert!(es[0].hostname.is_none());
        }
        _ => panic!("expected custom servers"),
    }
}

#[test]
fn live_and_stored_counters() {
    let mut s = LiveStats::new();
    s.record_query(true, false);
    s.record_query(false, true);
    assert_eq!((s.total_queries, s.blocked_queries, s.cache_hits), (2, 1, 1));
    assert_eq!(s.uptime_seconds(), 0);
    let mut c = QueryCounters::new(10, 4);
    c.record(true, false);
    c.record(false, true);
    assert_eq!((c.total_queries, c.blocked_queries, c.cache_hits, c.cache_misses), (12, 5, 1, 1));
    let mut w = QueryCounters::new(u64::MAX, 0);
    w.record(false, false);
    assert_eq!(w.total_queries, 0);
}

#[test]
fn update_report() {
    assert_eq!(update_message(1234, 4), "Loaded 1234 blocking rules from 4 lists");
    assert_eq!(update_message(0, 0), "Loaded 0 blocking rules from 0 lists");
}

#[test]
fn removing_a_blacklist_entry_keeps_the_whitelist_entry() {
    let mut core = AppCore::new(AppConfig::default());
    core.add_whitelist("both.example.com");
    core.add_blacklist("both.example.com");
    core.remove_blacklist("both.example.com");
    assert!(core.get_blacklist().is_empty());
    assert_eq!(core.get_whitelist(), vec!["both.example.com"]);
    assert!(matches!(core.filter().is_blocked("both.example.com"), FilterResult::Allowed { .. }));
}

#[test]
fn removing_a_whitelist_entry_keeps_the_blacklist_entry() {
    let mut core = AppCore::new(AppConfig::default());
    core.add_whitelist("both.example.com");
    core.add_blacklist("both.example.com");
    core.remove_whitelist("both.example.com");
    assert!(matches!(core.filter().is_blocked("both.example.com"), FilterResult::Blocked { .. }));
}

#[test]
fn provider_choice_changes_only_the_provider() {
    let mut core = AppCore::new(AppConfig::default());
    let before = core.config().clone();
    assert_eq!(core.set_dns_provider("mullvad"), Ok(()));
    assert_eq!(core.config().dns_provider_id, "mullvad");
    assert_eq!(core.config().port, before.port);
    assert_eq!(core.config().listen_address, before.listen_address);
    assert_eq!(core.config().cache_size, before.cache_size);
    assert!(core.set_dns_provider("nope").is_err());
    assert_eq!(core.config().dns_provider_id, "mullvad");
}
