use freeix::blocklists::{
    default_blocklists, format_of_url, is_valid_domain, join_lines, parse_adblock_line, parse_blocklist,
    download_allowed, parse_downloaded, parse_hosts_line, stored_names, sanitize_filename, BlocklistFormat, BlocklistManager, BlocklistSource,
};

fn cv(s: &str) -> Vec<char> {
    s.chars().collect()
}

fn sv(v: Option<Vec<char>>) -> Option<String> {
    v.map(|c| c.into_iter().collect())
}

#[test]
fn default_sources_in_order() {
    let lists = default_blocklists();
    assert_eq!(lists.len(), 4);
    assert_eq!(lists[0].name, "StevenBlack Unified");
    assert_eq!(lists[0].format, BlocklistFormat::Hosts);
    assert_eq!(lists[1].url, "https://big.oisd.nl/domainswild");
    assert_eq!(lists[2].name, "EasyPrivacy");
    assert_eq!(lists[3].format, BlocklistFormat::Adblock);
    assert!(lists.iter().all(|l| l.enabled));
    assert_eq!(BlocklistSource::oisd_big().format, BlocklistFormat::DomainList);
}

#[test]
fn hosts_lines() {
    assert_eq!(sv(parse_hosts_line(&cv("0.0.0.0 Ads.Example.com"))), Some("ads.example.com".to_string()));
    assert_eq!(sv(parse_hosts_line(&cv("127.0.0.1\ttracker.net extra"))), Some("tracker.net".to_string()));
    assert_eq!(sv(parse_hosts_line(&cv("0.0.0.0 localhost"))), None);
    assert_eq!(sv(parse_hosts_line(&cv("127.0.0.1 broadcasthost"))), None);
    assert_eq!(sv(parse_hosts_line(&cv("10.0.0.1 ads.example.com"))), None);
    assert_eq!(sv(parse_hosts_line(&cv("0.0.0.0"))), None);
}

#[test]
fn adblock_lines() {
    assert_eq!(sv(parse_adblock_line(&cv("||DoubleClick.net^"))), Some("doubleclick.net".to_string()));
    assert_eq!(sv(parse_adblock_line(&cv("||ads.site.com^$third-party"))), Some("ads.site.com".to_string()));
    assert_eq!(sv(parse_adblock_line(&cv("||cdn.site.com/path^"))), Some("cdn.site.com".to_string()));
    assert_eq!(sv(parse_adblock_line(&cv("@@||good.com^"))), None);
    assert_eq!(sv(parse_adblock_line(&cv("example.com"))), None);
}

#[test]
fn domain_validity() {
    assert!(is_valid_domain(&cv("ads.example.com")));
    assert!(!is_valid_domain(&cv("")));
    assert!(!is_valid_domain(&cv("localhost")));
    assert!(!is_valid_domain(&cv(".example.com")));
    assert!(!is_valid_domain(&cv("-example.com")));
    assert!(!is_valid_domain(&cv("bad domain.com")));
    let long = format!("{}.com", "a".repeat(250));
    assert!(!is_valid_domain(&cv(&long)));
}

#[test]
fn parse_hosts_file() {
    let content = "# comment\n0.0.0.0 ads.example.com\n127.0.0.1 localhost\n\n0.0.0.0 tracker.example.net\r\n0.0.0.0 nodot\n";
    assert_eq!(parse_blocklist(content, &BlocklistFormat::Hosts), vec!["ads.example.com", "tracker.example.net"]);
}

#[test]
fn parse_domain_list_keeps_wildcards() {
    let content = "*.ads.com\nplain.org\n! comment\n*.*.twice.net\nbad";
    assert_eq!(
        parse_blocklist(content, &BlocklistFormat::DomainList),
        vec!["*.ads.com", "plain.org", "*.twice.net"]
    );
}

#[test]
fn parse_adblock_file() {
    let content = "! title\n||doubleclick.net^\n||ads.facebook.com^\n@@||ok.com^\n||tracking.google.com^$important";
    assert_eq!(
        parse_blocklist(content, &BlocklistFormat::Adblock),
        vec!["doubleclick.net", "ads.facebook.com", "tracking.google.com"]
    );
}

#[test]
fn format_follows_url() {
    assert_eq!(format_of_url("https://example.com/hosts"), BlocklistFormat::Hosts);
    assert_eq!(format_of_url("https://example.com/filter_1.txt"), BlocklistFormat::Adblock);
    assert_eq!(format_of_url("https://example.com/list"), BlocklistFormat::DomainList);
    assert_eq!(parse_downloaded("https://x.org/hosts", "0.0.0.0 a.com"), vec!["a.com"]);
}

#[test]
fn file_names_and_storage() {
    assert_eq!(sanitize_filename("AdGuard DNS Filter"), "AdGuard_DNS_Filter.txt");
    assert_eq!(sanitize_filename("a/b.c"), "a_b_c.txt");
    assert_eq!(join_lines(&vec!["a.com".to_string(), "b.com".to_string()]), "a.com\nb.com");
    assert_eq!(join_lines(&vec![]), "");
}

#[test]
fn manager_registers_and_reads_lists() {
    let mut m = BlocklistManager::with_storage_dir("/tmp/lists".to_string());
    m.add_source(BlocklistSource::steven_black_unified());
    let mut off = BlocklistSource::oisd_big();
    off.enabled = false;
    m.add_source(off);
    m.add_source(BlocklistSource::adguard_dns());
    assert_eq!(m.lists().len(), 3);
    assert!(m.lists()[0].local_path.ends_with("StevenBlack_Unified.txt"));
    assert_eq!(m.enabled_indices(), vec![0, 2]);
    m.record_update(2, 7, 1_700_000_000);
    assert_eq!(m.lists()[2].domain_count, 7);
    assert_eq!(m.lists()[2].last_updated, Some(1_700_000_000));
    let contents = vec![
        Some("a.com\nx.com".to_string()),
        Some("b.com".to_string()),
        Some("c.com".to_string()),
    ];
    assert_eq!(m.rules_from_contents(&contents), vec!["a.com", "x.com", "c.com"]);
    let missing = vec![None, None, Some("d.com".to_string())];
    assert_eq!(m.rules_from_contents(&missing), vec!["d.com"]);
}

#[test]
fn domain_list_rules_are_lowercased() {
    let content = "*.Ads.Example.com\ntracker.net\n-bad.com\n.lead.com\nlocalhost";
    assert_eq!(parse_blocklist(content, &BlocklistFormat::DomainList), vec!["*.ads.example.com", "tracker.net"]);
}

#[test]
fn stored_copy_reads_back_as_stored() {
    let rules = parse_blocklist("0.0.0.0 ads.example.com\n127.0.0.1 Tracker.net\n", &BlocklistFormat::Hosts);
    assert_eq!(rules, vec!["ads.example.com", "tracker.net"]);
    assert_eq!(stored_names(&join_lines(&rules)), rules);
    assert_eq!(stored_names("a.com\n\nb.com\n"), vec!["a.com", "b.com"]);
    assert!(stored_names("").is_empty());
}

#[test]
fn hosts_list_reads_back_through_the_manager() {
    let mut m = BlocklistManager::with_storage_dir("store".to_string());
    m.add_source(BlocklistSource {
        name: "h".to_string(),
        url: "https://example.com/hosts".to_string(),
        format: BlocklistFormat::Hosts,
        enabled: true,
    });
    let rules = parse_blocklist("0.0.0.0 ads.example.com\n0.0.0.0 t.example.net", &BlocklistFormat::Hosts);
    let contents = vec![Some(join_lines(&rules))];
    assert_eq!(m.rules_from_contents(&contents), rules);
}

#[test]
fn downloads_only_over_https() {
    assert!(download_allowed("https://big.oisd.nl/domainswild"));
    assert!(!download_allowed("http://example.com/hosts"));
    assert!(!download_allowed("ftp://example.com/list"));
    for l in default_blocklists() {
        assert!(download_allowed(&l.url));
    }
}
