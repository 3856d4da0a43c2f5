use freeix::blocklists::{parse_blocklist, BlocklistFormat};
use freeix::filter::{domain_matches_wildcard, FilterEngine, FilterError, FilterResult, Rule, RuleType2};

#[test]
fn test_exact_block() {
    let mut engine = FilterEngine::new();
    engine.load_rules(vec!["ads.example.com"]).unwrap();
    assert!(matches!(engine.is_blocked("ads.example.com"), FilterResult::Blocked { .. }));
    assert!(matches!(engine.is_blocked("example.com"), FilterResult::NotMatched));
}

#[test]
fn test_wildcard_block() {
    let mut engine = FilterEngine::new();
    engine.load_rules(vec!["*.doubleclick.net"]).unwrap();
    assert!(matches!(engine.is_blocked("ad.doubleclick.net"), FilterResult::Blocked { .. }));
    assert!(matches!(engine.is_blocked("a.b.doubleclick.net"), FilterResult::Blocked { .. }));
    assert!(matches!(engine.is_blocked("doubleclick.net"), FilterResult::Blocked { .. }));
}

#[test]
fn test_allow_overrides_block() {
    let mut engine = FilterEngine::new();
    engine.load_rules(vec!["*.example.com", "@@safe.example.com"]).unwrap();
    assert!(matches!(engine.is_blocked("ads.example.com"), FilterResult::Blocked { .. }));
    assert!(matches!(engine.is_blocked("safe.example.com"), FilterResult::Allowed { .. }));
}

#[test]
fn test_regex_block() {
    let mut engine = FilterEngine::new();
    engine.load_rules(vec!["/^ad[0-9]+\\./"]).unwrap();
    assert!(matches!(engine.is_blocked("ad123.example.com"), FilterResult::Blocked { .. }));
    assert!(matches!(engine.is_blocked("content.example.com"), FilterResult::NotMatched));
}

fn rule_of(r: FilterResult) -> String {
    match r {
        FilterResult::Blocked { rule } => format!("block {}", rule),
        FilterResult::Allowed { rule } => format!("allow {}", rule),
        FilterResult::NotMatched => "none".to_string(),
    }
}

#[test]
fn filter_reports_the_deciding_rule() {
    let mut engine = FilterEngine::new();
    let n = engine
        .load_rules(vec!["ads.example.com", "*.tracker.net", "@@*.good.org", "@@ok.tracker.net", "/^x[0-9]/"])
        .unwrap();
    assert_eq!(n, 5);
    assert_eq!(rule_of(engine.is_blocked("ads.example.com")), "block ads.example.com");
    assert_eq!(rule_of(engine.is_blocked("a.tracker.net")), "block *.tracker.net");
    assert_eq!(rule_of(engine.is_blocked("ok.tracker.net")), "allow @@ok.tracker.net");
    assert_eq!(rule_of(engine.is_blocked("www.good.org")), "allow @@*.good.org");
    assert_eq!(rule_of(engine.is_blocked("x1.site")), "block ^x[0-9]");
    assert_eq!(rule_of(engine.is_blocked("plain.site")), "none");
}

#[test]
fn filter_lowercases_domains_and_rules() {
    let mut engine = FilterEngine::new();
    engine.load_rules(vec!["ADS.Example.COM"]).unwrap();
    assert_eq!(rule_of(engine.is_blocked("Ads.EXAMPLE.com")), "block ads.example.com");
}

#[test]
fn filter_skips_comments_and_blank_lines() {
    let mut engine = FilterEngine::new();
    let n = engine.load_rules(vec!["# comment", "! also", "   ", "  ads.example.com  "]).unwrap();
    assert_eq!(n, 1);
    assert_eq!(engine.rule_count(), 1);
    assert!(matches!(engine.is_blocked("ads.example.com"), FilterResult::Blocked { .. }));
}

#[test]
fn filter_invalid_regex_is_refused_and_keeps_rules() {
    let mut engine = FilterEngine::new();
    engine.load_rules(vec!["ads.example.com"]).unwrap();
    let r = engine.add_rules(vec!["/(unclosed/"]);
    assert!(matches!(r, Err(FilterError::InvalidRegex(_))));
    assert!(matches!(engine.is_blocked("ads.example.com"), FilterResult::Blocked { .. }));
    assert_eq!(engine.rule_count(), 1);
}

#[test]
fn filter_load_replaces_add_merges() {
    let mut engine = FilterEngine::new();
    engine.load_rules(vec!["a.com"]).unwrap();
    engine.add_rules(vec!["b.com"]).unwrap();
    assert!(matches!(engine.is_blocked("a.com"), FilterResult::Blocked { .. }));
    assert!(matches!(engine.is_blocked("b.com"), FilterResult::Blocked { .. }));
    engine.load_rules(vec!["c.com"]).unwrap();
    assert!(matches!(engine.is_blocked("a.com"), FilterResult::NotMatched));
    assert_eq!(engine.rule_count(), 1);
}

#[test]
fn filter_add_and_remove_single_rules() {
    let mut engine = FilterEngine::new();
    engine.add_rule(Rule { pattern: "ads.example.com".to_string(), rule_type: RuleType2::Block });
    engine.add_rule(Rule { pattern: "ok.example.com".to_string(), rule_type: RuleType2::Allow });
    assert!(matches!(engine.is_blocked("ads.example.com"), FilterResult::Blocked { .. }));
    assert!(matches!(engine.is_blocked("ok.example.com"), FilterResult::Allowed { .. }));
    assert_eq!(engine.rule_count(), 2);
    engine.remove_rule("ads.example.com");
    assert!(matches!(engine.is_blocked("ads.example.com"), FilterResult::NotMatched));
    engine.clear();
    assert_eq!(engine.rule_count(), 0);
}

#[test]
fn filter_default_is_empty() {
    let engine = FilterEngine::default();
    assert_eq!(engine.rule_count(), 0);
    assert!(matches!(engine.is_blocked("anything.com"), FilterResult::NotMatched));
}

#[test]
fn wildcard_matching() {
    assert!(domain_matches_wildcard("example.com", "example.com"));
    assert!(domain_matches_wildcard("a.example.com", "example.com"));
    assert!(domain_matches_wildcard("a.b.example.com", "example.com"));
    assert!(!domain_matches_wildcard("badexample.com", "example.com"));
    assert!(!domain_matches_wildcard("example.com.evil", "example.com"));
}

#[test]
fn hosts_blocklist_feeds_the_filter() {
    let content = "0.0.0.0 ads.example.com\n0.0.0.0 tracker.example.net\n0.0.0.0 malware.badsite.org\n";
    let rules = parse_blocklist(content, &BlocklistFormat::Hosts);
    let mut engine = FilterEngine::new();
    let refs: Vec<&str> = rules.iter().map(|s| s.as_str()).collect();
    assert_eq!(engine.load_rules(refs).unwrap(), 3);
    assert!(matches!(engine.is_blocked("tracker.example.net"), FilterResult::Blocked { .. }));
    assert!(matches!(engine.is_blocked("example.com"), FilterResult::NotMatched));
    assert!(matches!(engine.is_blocked("safe.example.net"), FilterResult::NotMatched));
}

#[test]
fn adblock_blocklist_with_allow_rules() {
    let rules = parse_blocklist("||doubleclick.net^\n||ads.facebook.com^", &BlocklistFormat::Adblock);
    let mut engine = FilterEngine::new();
    let mut refs: Vec<&str> = rules.iter().map(|s| s.as_str()).collect();
    refs.push("@@ads.facebook.com");
    engine.load_rules(refs).unwrap();
    assert!(matches!(engine.is_blocked("doubleclick.net"), FilterResult::Blocked { .. }));
    assert!(matches!(engine.is_blocked("ads.facebook.com"), FilterResult::Allowed { .. }));
    assert!(matches!(engine.is_blocked("facebook.com"), FilterResult::NotMatched));
}

#[test]
fn removing_an_added_rule_restores_the_filter() {
    let mut engine = FilterEngine::new();
    engine.add_rule(Rule { pattern: "keep.com".to_string(), rule_type: RuleType2::Allow });
    let before = engine.rule_count();
    engine.add_rule(Rule { pattern: "keep.com".to_string(), rule_type: RuleType2::Block });
    engine.remove_exact_rule("keep.com", RuleType2::Block);
    assert_eq!(engine.rule_count(), before);
    assert!(matches!(engine.is_blocked("keep.com"), FilterResult::Allowed { .. }));
    engine.remove_exact_rule("keep.com", RuleType2::Allow);
    assert!(matches!(engine.is_blocked("keep.com"), FilterResult::NotMatched));
}

#[test]
fn joined_lists_parse_as_their_parts() {
    let a = "0.0.0.0 a.com\n# note\n0.0.0.0 b.com\n";
    let b = "0.0.0.0 c.com";
    let joined = format!("{}\n{}", a, b);
    let mut parts = parse_blocklist(a, &BlocklistFormat::Hosts);
    parts.extend(parse_blocklist(b, &BlocklistFormat::Hosts));
    assert_eq!(parse_blocklist(&joined, &BlocklistFormat::Hosts), parts);
    assert_eq!(parts, vec!["a.com", "b.com", "c.com"]);
}

#[test]
fn verdict_follows_the_rule_lines() {
    let mut engine = FilterEngine::new();
    engine
        .load_rules(vec!["example.com", "*.ads.net", "@@*.good.ads.net", "@@Keep.Example.com", "# comment", "/^track[0-9]+\\./"])
        .unwrap();
    assert!(matches!(engine.is_blocked("EXAMPLE.com"), FilterResult::Blocked { .. }));
    assert!(matches!(engine.is_blocked("badexample.com"), FilterResult::NotMatched));
    assert!(matches!(engine.is_blocked("x.ads.net"), FilterResult::Blocked { .. }));
    assert!(matches!(engine.is_blocked("a.good.ads.net"), FilterResult::Allowed { .. }));
    assert!(matches!(engine.is_blocked("keep.example.com"), FilterResult::Allowed { .. }));
    assert!(matches!(engine.is_blocked("track12.example.org"), FilterResult::Blocked { .. }));
}
