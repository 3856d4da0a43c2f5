//! FreeIX core: blocklist parsing, domain filtering, DNS caching and the
//! decision logic of a DNS-level ad blocker.

pub mod text;
pub mod blocklists;
pub mod regexes;
pub mod filter;
pub mod packet;
pub mod clock;
pub mod lru_cache;
pub mod dns_cache;
pub mod upstream;
pub mod dns;
pub mod config;
pub mod desktop;
pub mod top_blocked;
pub mod url_filter;
pub mod http_proxy;
pub mod platform;
pub mod stats;
pub mod ca;
