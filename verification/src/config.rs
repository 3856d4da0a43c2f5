//! The application settings and their defaults.

use vstd::prelude::*;

use crate::upstream::{socket_v4, v4, SocketAddress};

verus! {

broadcast use vstd::string::group_string_axioms;

#[derive(Debug)]
pub struct DnsConfig {
    pub listen_addr: SocketAddress,
    pub upstream_servers: Vec<String>,
    pub cache_size: usize,
    pub max_ttl_secs: u64,
    pub min_ttl_secs: u64,
    pub enable_doh: bool,
    pub enable_dot: bool,
}

#[derive(Debug)]
pub struct BlocklistEntry {
    pub name: String,
    pub url: String,
    pub enabled: bool,
}

#[derive(Debug)]
pub struct FilterConfig {
    pub enabled: bool,
    pub blocklists: Vec<BlocklistEntry>,
    pub custom_rules: Vec<String>,
    pub whitelist: Vec<String>,
}

#[derive(Debug)]
pub struct UiConfig {
    pub theme: String,
    pub start_minimized: bool,
    pub show_notifications: bool,
    pub language: String,
}

#[derive(Debug)]
pub struct StatsConfig {
    pub enabled: bool,
    pub retention_days: u32,
    pub db_path: Option<String>,
}

#[derive(Debug)]
pub struct AppConfig {
    pub dns: DnsConfig,
    pub filter: FilterConfig,
    pub ui: UiConfig,
    pub stats: StatsConfig,
}

impl Default for DnsConfig {
    /// `127.0.0.1:53`, upstreams `1.1.1.1`, `1.0.0.1`, `8.8.8.8`, 10000
    /// cache entries, times to live between 60 s and one day, DoH on, DoT off.
    fn default() -> (r: Self)
        ensures
            r.listen_addr == v4(127, 0, 0, 1, 53),
            r.upstream_servers.len() == 3,
            r.upstream_servers[0]@ == "1.1.1.1"@,
            r.upstream_servers[1]@ == "1.0.0.1"@,
            r.upstream_servers[2]@ == "8.8.8.8"@,
            r.cache_size == 10000,
            r.max_ttl_secs == 86400,
            r.min_ttl_secs == 60,
            r.enable_doh,
            !r.enable_dot,
    {
        let mut upstream_servers = Vec::new();
        upstream_servers.push(String::from_str("1.1.1.1"));
        upstream_servers.push(String::from_str("1.0.0.1"));
        upstream_servers.push(String::from_str("8.8.8.8"));
        DnsConfig {
            listen_addr: socket_v4(127, 0, 0, 1, 53),
            upstream_servers,
            cache_size: 10000,
            max_ttl_secs: 86400,
            min_ttl_secs: 60,
            enable_doh: true,
            enable_dot: false,
        }
    }
}

impl Default for FilterConfig {
    /// Filtering on, with StevenBlack Unified and OISD Big, and no custom
    /// rule or whitelist entry.
    fn default() -> (r: Self)
        ensures
            r.enabled,
            r.blocklists.len() == 2,
            r.blocklists[0].name@ == "StevenBlack Unified"@,
            r.blocklists[0].url@ == "https://raw.githubusercontent.com/StevenBlack/hosts/master/hosts"@,
            r.blocklists[0].enabled,
            r.blocklists[1].name@ == "OISD Big"@,
            r.blocklists[1].url@ == "https://big.oisd.nl/domainswild"@,
            r.blocklists[1].enabled,
            r.custom_rules.len() == 0,
            r.whitelist.len() == 0,
    {
        let mut blocklists = Vec::new();
        blocklists.push(
            BlocklistEntry {
                name: String::from_str("StevenBlack Unified"),
                url: String::from_str(
                    "https://raw.githubusercontent.com/StevenBlack/hosts/master/hosts",
                ),
                enabled: true,
            },
        );
        blocklists.push(
            BlocklistEntry {
                name: String::from_str("OISD Big"),
                url: String::from_str("https://big.oisd.nl/domainswild"),
                enabled: true,
            },
        );
        FilterConfig {
            enabled: true,
            blocklists,
            custom_rules: Vec::new(),
            whitelist: Vec::new(),
        }
    }
}

impl Default for UiConfig {
    /// The system theme, not minimized, notifications on, English.
    fn default() -> (r: Self)
        ensures
            r.theme@ == "system"@,
            !r.start_minimized,
            r.show_notifications,
            r.language@ == "en"@,
    {
        UiConfig {
            theme: String::from_str("system"),
            start_minimized: false,
            show_notifications: true,
            language: String::from_str("en"),
        }
    }
}

impl Default for StatsConfig {
    /// Statistics on, kept 30 days, in the default database.
    fn default() -> (r: Self)
        ensures
            r.enabled,
            r.retention_days == 30,
            r.db_path is None,
    {
        StatsConfig { enabled: true, retention_days: 30, db_path: None }
    }
}

impl Default for AppConfig {
    /// The defaults of every section.
    fn default() -> (r: Self)
        ensures
            r.dns.listen_addr == v4(127, 0, 0, 1, 53),
            r.dns.cache_size == 10000,
            r.filter.enabled,
            r.filter.blocklists.len() == 2,
            r.ui.theme@ == "system"@,
            r.stats.retention_days == 30,
    {
        AppConfig {
            dns: DnsConfig::default(),
            filter: FilterConfig::default(),
            ui: UiConfig::default(),
            stats: StatsConfig::default(),
        }
    }
}

} // verus!
