//! The state behind the desktop application: settings, DNS providers, the
//! query log, live counters, and the user's allow and block lists.

use vstd::prelude::*;

use std::time::Instant;

use crate::clock::{instant_now, nanos_since};
use crate::dns::QueryInfo;
use crate::filter::{empty_model, spec_rule_count, FilterEngine, FilterModel, Rule, RuleType2};
use crate::lru_cache::{inc_wrapping, wrapping_inc};
use crate::top_blocked::{is_top_blocked, top_blocked_of, top_views};
use crate::dns::DnsServerConfig;
use crate::upstream::{entry_views, plain, SocketAddress, UpstreamConfig, UpstreamEntry, UpstreamProtocol, UpstreamProvider};
use crate::text::{spec_decimal, decimal_string, chars_of, eq_chars, str_to_lowercase, string_of, to_lowercase, views};

verus! {

broadcast use vstd::string::group_string_axioms;

/// How many events the query log holds before it sheds its oldest half.
pub const LOG_CAPACITY: usize = 10000;

/// How many of the oldest events the log sheds when it is full.
pub const LOG_SHED: usize = 5000;

/// How many events `get_logs` returns when no limit is given.
pub const DEFAULT_LOG_LIMIT: usize = 200;

/// How many domains the most-blocked list holds.
pub const TOP_BLOCKED_LIMIT: usize = 20;

#[derive(Debug, Clone, Copy, PartialEq, Eq, Structural)]
pub enum QueryStatus {
    Allowed,
    Blocked,
    Cached,
    Error,
}

/// One handled query, as the query log keeps it.
#[derive(Debug, Clone)]
pub struct QueryEvent {
    pub timestamp: u64,
    pub domain: String,
    pub query_type: String,
    pub status: QueryStatus,
    pub response_time_ms: u32,
    pub upstream: String,
    pub rule: Option<String>,
}

pub ghost struct EventView {
    pub timestamp: u64,
    pub domain: Seq<char>,
    pub query_type: Seq<char>,
    pub status: QueryStatus,
    pub response_time_ms: u32,
    pub upstream: Seq<char>,
    pub rule: Option<Seq<char>>,
}

pub open spec fn opt_string_view(o: Option<String>) -> Option<Seq<char>> {
    match o {
        Some(s) => Some(s@),
        None => None,
    }
}

fn copy_opt_string(o: &Option<String>) -> (r: Option<String>)
    ensures
        opt_string_view(r) == opt_string_view(*o),
{
    match o {
        Some(s) => Some(s.clone()),
        None => None,
    }
}

impl View for QueryEvent {
    type V = EventView;

    open spec fn view(&self) -> EventView {
        EventView {
            timestamp: self.timestamp,
            domain: self.domain@,
            query_type: self.query_type@,
            status: self.status,
            response_time_ms: self.response_time_ms,
            upstream: self.upstream@,
            rule: opt_string_view(self.rule),
        }
    }
}

impl QueryEvent {
    /// An event with the same fields.
    pub fn duplicate(&self) -> (r: Self)
        ensures
            r@ == self@,
    {
        QueryEvent {
            timestamp: self.timestamp,
            domain: self.domain.clone(),
            query_type: self.query_type.clone(),
            status: self.status,
            response_time_ms: self.response_time_ms,
            upstream: self.upstream.clone(),
            rule: copy_opt_string(&self.rule),
        }
    }
}

pub open spec fn event_views(v: Seq<QueryEvent>) -> Seq<EventView> {
    v.map_values(|e: QueryEvent| e@)
}

/// A public DNS provider the user can pick.
#[derive(Debug, Clone)]
pub struct DnsProvider {
    pub id: String,
    pub name: String,
    pub primary: String,
    pub secondary: String,
    pub description: String,
}

pub ghost struct ProviderView {
    pub id: Seq<char>,
    pub name: Seq<char>,
    pub primary: Seq<char>,
    pub secondary: Seq<char>,
    pub description: Seq<char>,
}

impl View for DnsProvider {
    type V = ProviderView;

    open spec fn view(&self) -> ProviderView {
        ProviderView {
            id: self.id@,
            name: self.name@,
            primary: self.primary@,
            secondary: self.secondary@,
            description: self.description@,
        }
    }
}

impl DnsProvider {
    pub fn duplicate(&self) -> (r: Self)
        ensures
            r@ == self@,
    {
        DnsProvider {
            id: self.id.clone(),
            name: self.name.clone(),
            primary: self.primary.clone(),
            secondary: self.secondary.clone(),
            description: self.description.clone(),
        }
    }
}

pub open spec fn provider_view(id: &str, name: &str, primary: &str, secondary: &str, description: &str) -> ProviderView {
    ProviderView {
        id: id@,
        name: name@,
        primary: primary@,
        secondary: secondary@,
        description: description@,
    }
}

fn provider(id: &str, name: &str, primary: &str, secondary: &str, description: &str) -> (r: DnsProvider)
    ensures
        r@ == provider_view(id, name, primary, secondary, description),
{
    DnsProvider {
        id: String::from_str(id),
        name: String::from_str(name),
        primary: String::from_str(primary),
        secondary: String::from_str(secondary),
        description: String::from_str(description),
    }
}

/// The providers on offer, in this order.
pub open spec fn spec_default_providers() -> Seq<ProviderView> {
    seq![
        provider_view("adguard", "AdGuard DNS", "94.140.14.14", "94.140.15.15", "AdGuard DNS with built-in ad blocking"),
        provider_view("cloudflare-family", "Cloudflare Family", "1.1.1.3", "1.0.0.3", "Cloudflare with malware and adult content blocking"),
        provider_view("mullvad", "Mullvad DNS", "194.242.2.2", "194.242.2.3", "Mullvad privacy-focused ad-blocking DNS"),
        provider_view("quad9", "Quad9", "9.9.9.9", "149.112.112.112", "Quad9 security-focused DNS with threat blocking"),
        provider_view("cloudflare", "Cloudflare", "1.1.1.1", "1.0.0.1", "Cloudflare fast DNS (no filtering)"),
    ]
}

pub fn default_providers() -> (r: Vec<DnsProvider>)
    ensures
        r@.map_values(|p: DnsProvider| p@) == spec_default_providers(),
{
    let mut r = Vec::new();
    r.push(provider("adguard", "AdGuard DNS", "94.140.14.14", "94.140.15.15", "AdGuard DNS with built-in ad blocking"));
    r.push(provider("cloudflare-family", "Cloudflare Family", "1.1.1.3", "1.0.0.3", "Cloudflare with malware and adult content blocking"));
    r.push(provider("mullvad", "Mullvad DNS", "194.242.2.2", "194.242.2.3", "Mullvad privacy-focused ad-blocking DNS"));
    r.push(provider("quad9", "Quad9", "9.9.9.9", "149.112.112.112", "Quad9 security-focused DNS with threat blocking"));
    r.push(provider("cloudflare", "Cloudflare", "1.1.1.1", "1.0.0.1", "Cloudflare fast DNS (no filtering)"));
    assert(r@.map_values(|p: DnsProvider| p@) =~= spec_default_providers());
    r
}

/// The browser DNS-over-HTTPS endpoints that are blocked so that browsers
/// use the system resolver.
pub open spec fn spec_doh_endpoints() -> Seq<Seq<char>> {
    seq![
        "dns.google"@, "dns.google.com"@, "8888.google"@, "dns64.dns.google"@,
        "chrome.cloudflare-dns.com"@, "cloudflare-dns.com"@, "one.one.one.one"@,
        "1dot1dot1dot1.cloudflare-dns.com"@, "mozilla.cloudflare-dns.com"@,
        "firefox.dns.nextdns.io"@, "dns.nextdns.io"@, "anycast.dns.nextdns.io"@,
        "dns.quad9.net"@, "dns9.quad9.net"@, "dns10.quad9.net"@, "dns11.quad9.net"@,
        "doh.opendns.com"@, "doh.familyshield.opendns.com"@, "dns.adguard-dns.com"@,
        "dns-unfiltered.adguard.com"@, "dns-family.adguard.com"@, "doh.cleanbrowsing.org"@,
    ]
}

fn doh_endpoints() -> (r: Vec<&'static str>)
    ensures
        r@.map_values(|s: &str| s@) == spec_doh_endpoints(),
{
    let r = vec![
        "dns.google", "dns.google.com", "8888.google", "dns64.dns.google",
        "chrome.cloudflare-dns.com", "cloudflare-dns.com", "one.one.one.one",
        "1dot1dot1dot1.cloudflare-dns.com", "mozilla.cloudflare-dns.com",
        "firefox.dns.nextdns.io", "dns.nextdns.io", "anycast.dns.nextdns.io",
        "dns.quad9.net", "dns9.quad9.net", "dns10.quad9.net", "dns11.quad9.net",
        "doh.opendns.com", "doh.familyshield.opendns.com", "dns.adguard-dns.com",
        "dns-unfiltered.adguard.com", "dns-family.adguard.com", "doh.cleanbrowsing.org",
    ];
    assert(r@.map_values(|s: &str| s@) =~= spec_doh_endpoints());
    r
}

/// The desktop settings.
#[derive(Debug, Clone)]
pub struct AppConfig {
    pub dns_provider_id: String,
    pub auto_start: bool,
    pub dark_mode: bool,
    pub cache_size: u32,
    pub listen_address: String,
    pub port: u16,
    pub setup_complete: bool,
}

impl Default for AppConfig {
    /// AdGuard, no auto start, dark mode, 10000 cache entries, `127.0.0.1`
    /// port 53, setup not done.
    fn default() -> (r: Self)
        ensures
            r.dns_provider_id@ == "adguard"@,
            !r.auto_start,
            r.dark_mode,
            r.cache_size == 10000,
            r.listen_address@ == "127.0.0.1"@,
            r.port == 53,
            !r.setup_complete,
    {
        AppConfig {
            dns_provider_id: String::from_str("adguard"),
            auto_start: false,
            dark_mode: true,
            cache_size: 10000,
            listen_address: String::from_str("127.0.0.1"),
            port: 53,
            setup_complete: false,
        }
    }
}

/// Live counters of handled queries, and when protection started.
#[derive(Debug)]
pub struct LiveStats {
    pub total_queries: u64,
    pub blocked_queries: u64,
    pub cache_hits: u64,
    pub started_at: Option<Instant>,
}

impl LiveStats {
    pub open spec fn spec_started(&self) -> bool {
        self.started_at is Some
    }

    pub fn new() -> (r: Self)
        ensures
            r.total_queries == 0 && r.blocked_queries == 0 && r.cache_hits == 0,
            !r.spec_started(),
    {
        LiveStats { total_queries: 0, blocked_queries: 0, cache_hits: 0, started_at: None }
    }

    /// Counts one query (the counters wrap as atomic additions do).
    pub fn record_query(&mut self, blocked: bool, cached: bool)
        ensures
            final(self).total_queries == wrapping_inc(old(self).total_queries),
            final(self).blocked_queries == if blocked {
                wrapping_inc(old(self).blocked_queries)
            } else {
                old(self).blocked_queries
            },
            final(self).cache_hits == if cached {
                wrapping_inc(old(self).cache_hits)
            } else {
                old(self).cache_hits
            },
            final(self).started_at == old(self).started_at,
    {
        self.total_queries = inc_wrapping(self.total_queries);
        if blocked {
            self.blocked_queries = inc_wrapping(self.blocked_queries);
        }
        if cached {
            self.cache_hits = inc_wrapping(self.cache_hits);
        }
    }

    /// Starts the uptime clock.
    pub fn mark_started(&mut self)
        ensures
            final(self).spec_started(),
            final(self).total_queries == old(self).total_queries,
            final(self).blocked_queries == old(self).blocked_queries,
            final(self).cache_hits == old(self).cache_hits,
    {
        self.started_at = Some(instant_now());
    }

    /// Seconds since protection started; zero when it never started.
    pub fn uptime_seconds(&self) -> (r: u64)
        ensures
            !self.spec_started() ==> r == 0,
    {
        match &self.started_at {
            Some(t) => nanos_since(t) / 1_000_000_000,
            None => 0,
        }
    }
}

/// A blocked domain and how often it was blocked.
#[derive(Debug, Clone)]
pub struct TopBlocked {
    pub domain: String,
    pub count: u64,
}

/// What the user interface shows of the protection.
#[derive(Debug, Clone)]
pub struct ProtectionStatus {
    pub enabled: bool,
    pub dns_provider: String,
    pub uptime_seconds: u64,
    pub total_rules: usize,
}

// ---------------------------------------------------------------------------
// The query log.
// ---------------------------------------------------------------------------

/// The log after one more event: a full log first sheds its oldest half.
pub open spec fn spec_push_log(log: Seq<EventView>, e: EventView) -> Seq<EventView> {
    (if log.len() >= LOG_CAPACITY {
        log.skip(LOG_SHED as int)
    } else {
        log
    }).push(e)
}

/// The newest `limit` events (200 without a limit), newest first.
pub open spec fn spec_recent(log: Seq<EventView>, limit: Option<usize>) -> Seq<EventView> {
    let l = match limit {
        Some(n) => n as int,
        None => DEFAULT_LOG_LIMIT as int,
    };
    let n = if l < log.len() {
        l
    } else {
        log.len() as int
    };
    Seq::new(n as nat, |k: int| log[log.len() - 1 - k])
}

/// The event a handled query is logged as: blocked, else cached, else
/// allowed.
pub open spec fn spec_event_of(info: QueryInfo, timestamp: u64) -> EventView {
    EventView {
        timestamp,
        domain: info.domain@,
        query_type: info.query_type@,
        status: if info.blocked {
            QueryStatus::Blocked
        } else if info.cached {
            QueryStatus::Cached
        } else {
            QueryStatus::Allowed
        },
        response_time_ms: info.response_time_ms,
        upstream: seq![],
        rule: opt_string_view(info.rule),
    }
}

pub fn event_of(info: &QueryInfo, timestamp: u64) -> (r: QueryEvent)
    ensures
        r@ == spec_event_of(*info, timestamp),
{
    let status = if info.blocked {
        QueryStatus::Blocked
    } else if info.cached {
        QueryStatus::Cached
    } else {
        QueryStatus::Allowed
    };
    QueryEvent {
        timestamp,
        domain: info.domain.clone(),
        query_type: info.query_type.clone(),
        status,
        response_time_ms: info.response_time_ms,
        upstream: String::new(),
        rule: copy_opt_string(&info.rule),
    }
}

// ---------------------------------------------------------------------------
// User lists.
// ---------------------------------------------------------------------------

pub open spec fn distinct_strings(s: Seq<Seq<char>>) -> bool {
    forall|i: int, j: int| 0 <= i < j < s.len() ==> s[i] != s[j]
}

/// `s` with `d` appended unless it holds it already.
pub open spec fn set_insert(s: Seq<Seq<char>>, d: Seq<char>) -> Seq<Seq<char>> {
    if s.contains(d) {
        s
    } else {
        s.push(d)
    }
}

/// `s` without `d`.
pub open spec fn set_remove(s: Seq<Seq<char>>, d: Seq<char>) -> Seq<Seq<char>> {
    s.filter(other_than(d))
}

/// The test that keeps everything but `d`.
pub open spec fn other_than(d: Seq<char>) -> spec_fn(Seq<char>) -> bool {
    |x: Seq<char>| x != d
}

fn position_of(list: &Vec<String>, d: &Vec<char>) -> (r: Option<usize>)
    ensures
        match r {
            Some(i) => i < list.len() && list@[i as int]@ == d@,
            None => !views(list@).contains(d@),
        },
{
    let mut i: usize = 0;
    while i < list.len()
        invariant
            i <= list.len(),
            forall|k: int| 0 <= k < i ==> list@[k]@ != d@,
        decreases list.len() - i,
    {
        if eq_chars(&chars_of(list[i].as_str()), d) {
            return Some(i);
        }
        i += 1;
    }
    assert(!views(list@).contains(d@)) by {
        if views(list@).contains(d@) {
            let k = choose|k: int| 0 <= k < views(list@).len() && views(list@)[k] == d@;
            assert(list@[k]@ == d@);
        }
    }
    None
}

fn list_insert(list: &mut Vec<String>, d: &Vec<char>)
    requires
        distinct_strings(views(old(list)@)),
    ensures
        views(final(list)@) == set_insert(views(old(list)@), d@),
        distinct_strings(views(final(list)@)),
{
    match position_of(list, d) {
        Some(i) => {
            assert(views(list@)[i as int] == d@);
        },
        None => {
            let ghost before = views(list@);
            list.push(string_of(d));
            assert(views(list@) =~= before.push(d@));
        },
    }
}

fn list_remove(list: &mut Vec<String>, d: &Vec<char>)
    requires
        distinct_strings(views(old(list)@)),
    ensures
        views(final(list)@) == set_remove(views(old(list)@), d@),
        distinct_strings(views(final(list)@)),
{
    let ghost before = views(list@);
    match position_of(list, d) {
        Some(i) => {
            list.remove(i);
            proof {
                lemma_filter_remove_unique(before, d@, i as int);
            }
            assert(views(list@) =~= before.remove(i as int));
            assert forall|a: int, b: int| 0 <= a < b < before.remove(i as int).len() implies
                before.remove(i as int)[a] != before.remove(i as int)[b] by {
                let a2 = if a < i { a } else { a + 1 };
                let b2 = if b < i { b } else { b + 1 };
                assert(before.remove(i as int)[a] == before[a2]);
                assert(before.remove(i as int)[b] == before[b2]);
            }
        },
        None => {
            proof {
                lemma_filter_absent(before, d@);
            }
        },
    }
}

proof fn lemma_filter_absent(s: Seq<Seq<char>>, d: Seq<char>)
    requires
        !s.contains(d),
    ensures
        set_remove(s, d) == s,
    decreases s.len(),
{
    reveal_with_fuel(Seq::<_>::filter, 1);
    if s.len() > 0 {
        assert(!s.drop_last().contains(d)) by {
            if s.drop_last().contains(d) {
                let k = choose|k: int| 0 <= k < s.drop_last().len() && s.drop_last()[k] == d;
                assert(s[k] == d);
            }
        }
        lemma_filter_absent(s.drop_last(), d);
        assert(s.last() != d);
        assert(s.drop_last().push(s.last()) =~= s);
    } else {
        assert(set_remove(s, d) =~= s);
    }
}

proof fn lemma_filter_remove_unique(s: Seq<Seq<char>>, d: Seq<char>, i: int)
    requires
        0 <= i < s.len(),
        s[i] == d,
        distinct_strings(s),
    ensures
        set_remove(s, d) == s.remove(i),
    decreases s.len(),
{
    reveal_with_fuel(Seq::<_>::filter, 1);
    if i == s.len() - 1 {
        assert(!s.drop_last().contains(d)) by {
            if s.drop_last().contains(d) {
                let k = choose|k: int| 0 <= k < s.drop_last().len() && s.drop_last()[k] == d;
                assert(s[k] == d);
            }
        }
        lemma_filter_absent(s.drop_last(), d);
        assert(s.remove(i) =~= s.drop_last());
    } else {
        let t = s.drop_last();
        assert(distinct_strings(t));
        lemma_filter_remove_unique(t, d, i);
        assert(s.last() != d);
        assert(s.remove(i) =~= t.remove(i).push(s.last()));
    }
}

// ---------------------------------------------------------------------------
// The application core.
// ---------------------------------------------------------------------------

/// The first provider with the given id, if one has it.
pub open spec fn first_with_id(ps: Seq<ProviderView>, id: Seq<char>) -> Option<int> {
    if exists|k: int| 0 <= k < ps.len() && ps[k].id == id {
        Some(
            choose|k: int|
                0 <= k < ps.len() && ps[k].id == id && forall|j: int| 0 <= j < k ==> ps[j].id != id,
        )
    } else {
        None
    }
}

/// The provider protection uses: the first with the configured id, or the
/// first of all.
pub open spec fn spec_selected_provider(ps: Seq<ProviderView>, id: Seq<char>) -> ProviderView {
    match first_with_id(ps, id) {
        Some(k) => ps[k],
        None => ps[0],
    }
}

/// The state of the desktop application that the commands act on.
pub struct AppCore {
    protection_enabled: bool,
    config: AppConfig,
    stats: LiveStats,
    whitelist: Vec<String>,
    blacklist: Vec<String>,
    query_log: Vec<QueryEvent>,
    dns_providers: Vec<DnsProvider>,
    filter_engine: FilterEngine,
}

pub ghost struct CoreView {
    pub protection_enabled: bool,
    pub whitelist: Seq<Seq<char>>,
    pub blacklist: Seq<Seq<char>>,
    pub log: Seq<EventView>,
    pub providers: Seq<ProviderView>,
    pub filter: FilterModel,
}

impl View for AppCore {
    type V = CoreView;

    closed spec fn view(&self) -> CoreView {
        CoreView {
            protection_enabled: self.protection_enabled,
            whitelist: views(self.whitelist@),
            blacklist: views(self.blacklist@),
            log: event_views(self.query_log@),
            providers: self.dns_providers@.map_values(|p: DnsProvider| p@),
            filter: self.filter_engine@,
        }
    }
}

impl AppCore {
    #[verifier::type_invariant]
    spec fn well_formed(self) -> bool {
        &&& distinct_strings(views(self.whitelist@))
        &&& distinct_strings(views(self.blacklist@))
        &&& self.query_log@.len() <= LOG_CAPACITY
        &&& self.dns_providers@.len() > 0
    }

    pub closed spec fn spec_config(&self) -> AppConfig {
        self.config
    }

    pub closed spec fn spec_stats(&self) -> LiveStats {
        self.stats
    }

    /// The state at start-up: protection off, the five providers, empty
    /// lists and log, and a filter that blocks the browsers' DNS-over-HTTPS
    /// endpoints.
    pub fn new(config: AppConfig) -> (r: Self)
        ensures
            !r@.protection_enabled,
            r@.providers == spec_default_providers(),
            r@.whitelist.len() == 0,
            r@.blacklist.len() == 0,
            r@.log.len() == 0,
            r@.filter == (FilterModel {
                exact_blocks: spec_doh_endpoints().to_set(),
                ..empty_model()
            }),
            r.spec_config() == config,
    {
        let mut engine = FilterEngine::new();
        let doh = doh_endpoints();
        let ghost dv = doh@.map_values(|s: &str| s@);
        let mut i: usize = 0;
        assert(dv.take(0) =~= Seq::<Seq<char>>::empty());
        assert(dv.take(0).to_set() =~= Set::<Seq<char>>::empty());
        while i < doh.len()
            invariant
                i <= doh.len(),
                dv == doh@.map_values(|s: &str| s@),
                engine@ == (FilterModel { exact_blocks: dv.take(i as int).to_set(), ..empty_model() }),
            decreases doh.len() - i,
        {
            engine.add_rule(Rule { pattern: String::from_str(doh[i]), rule_type: RuleType2::Block });
            assert(dv.take(i + 1) =~= dv.take(i as int).push(dv[i as int]));
            proof {
                dv.take(i as int).lemma_push_to_set_commute(dv[i as int]);
            }
            i += 1;
        }
        assert(dv.take(doh.len() as int) =~= dv);
        let providers = default_providers();
        assert(providers@.map_values(|p: DnsProvider| p@).len() == 5);
        let whitelist: Vec<String> = Vec::new();
        let blacklist: Vec<String> = Vec::new();
        assert(views(whitelist@) =~= Seq::<Seq<char>>::empty());
        assert(views(blacklist@) =~= Seq::<Seq<char>>::empty());
        let r = AppCore {
            protection_enabled: false,
            config,
            stats: LiveStats::new(),
            whitelist,
            blacklist,
            query_log: Vec::with_capacity(LOG_CAPACITY),
            dns_providers: providers,
            filter_engine: engine,
        };
        assert(views(r.whitelist@) =~= Seq::<Seq<char>>::empty());
        assert(views(r.blacklist@) =~= Seq::<Seq<char>>::empty());
        r
    }

    /// Appends an event to the log; a full log first sheds its oldest half.
    pub fn push_log(&mut self, event: QueryEvent)
        ensures
            final(self)@ == (CoreView { log: spec_push_log(old(self)@.log, event@), ..old(self)@ }),
            final(self).spec_config() == old(self).spec_config(),
            final(self).spec_stats() == old(self).spec_stats(),
    {
        proof {
            use_type_invariant(&*self);
        }
        let mut log = Vec::new();
        std::mem::swap(&mut log, &mut self.query_log);
        let ghost before = event_views(log@);
        if log.len() >= LOG_CAPACITY {
            let mut kept: Vec<QueryEvent> = Vec::new();
            let mut i: usize = LOG_SHED;
            while i < log.len()
                invariant
                    LOG_SHED <= i <= log.len(),
                    before == event_views(log@),
                    event_views(kept@) == before.subrange(LOG_SHED as int, i as int),
                    kept.len() == i - LOG_SHED,
                decreases log.len() - i,
            {
                let e = log[i].duplicate();
                let ghost b2 = event_views(kept@);
                kept.push(e);
                assert(event_views(kept@) =~= before.subrange(LOG_SHED as int, i + 1));
                i += 1;
            }
            log = kept;
        }
        let ghost mid = event_views(log@);
        assert(mid =~= (if before.len() >= LOG_CAPACITY {
            before.skip(LOG_SHED as int)
        } else {
            before
        }));
        log.push(event);
        assert(event_views(log@) =~= mid.push(event@));
        self.query_log = log;
    }

    /// The newest events, newest first: `limit` of them, or 200.
    pub fn get_logs(&self, limit: Option<usize>) -> (r: Vec<QueryEvent>)
        ensures
            event_views(r@) == spec_recent(self@.log, limit),
    {
        let l = match limit {
            Some(n) => n,
            None => DEFAULT_LOG_LIMIT,
        };
        let len = self.query_log.len();
        let n = if l < len {
            l
        } else {
            len
        };
        let ghost log = self@.log;
        let mut r: Vec<QueryEvent> = Vec::new();
        let mut k: usize = 0;
        while k < n
            invariant
                k <= n <= len,
                len == self.query_log@.len(),
                log == event_views(self.query_log@),
                r@.len() == k,
                forall|j: int| 0 <= j < k ==> #[trigger] event_views(r@)[j] == log[len - 1 - j],
            decreases n - k,
        {
            let e = self.query_log[len - 1 - k].duplicate();
            let ghost prev = event_views(r@);
            r.push(e);
            assert(event_views(r@) =~= prev.push(e@));
            assert(log[len - 1 - k] == self.query_log@[len - 1 - k]@);
            k += 1;
        }
        assert(event_views(r@) =~= spec_recent(log, limit));
        r
    }

    /// The most-blocked domains of the log, at most twenty, by count from
    /// the highest.
    pub fn top_blocked(&self) -> (r: Vec<TopBlocked>)
        ensures
            is_top_blocked(self@.log, top_views(r@)),
    {
        top_blocked_of(&self.query_log)
    }

    /// Counts a handled query and logs it (the query callback).
    pub fn record_query(&mut self, info: &QueryInfo, timestamp: u64)
        ensures
            final(self)@ == (CoreView {
                log: spec_push_log(old(self)@.log, spec_event_of(*info, timestamp)),
                ..old(self)@
            }),
            final(self).spec_stats().total_queries == wrapping_inc(old(self).spec_stats().total_queries),
            final(self).spec_stats().blocked_queries == if info.blocked {
                wrapping_inc(old(self).spec_stats().blocked_queries)
            } else {
                old(self).spec_stats().blocked_queries
            },
            final(self).spec_stats().cache_hits == if info.cached {
                wrapping_inc(old(self).spec_stats().cache_hits)
            } else {
                old(self).spec_stats().cache_hits
            },
            final(self).spec_stats().started_at == old(self).spec_stats().started_at,
            final(self).spec_config() == old(self).spec_config(),
    {
        proof {
            use_type_invariant(&*self);
        }
        let mut st = LiveStats::new();
        std::mem::swap(&mut st, &mut self.stats);
        st.record_query(info.blocked, info.cached);
        self.stats = st;
        let e = event_of(info, timestamp);
        self.push_log(e);
    }

    /// Allows a domain (lowercased): lists it and adds an exact allow rule.
    pub fn add_whitelist(&mut self, domain: &str)
        ensures
            final(self)@ == (CoreView {
                whitelist: set_insert(old(self)@.whitelist, str_to_lowercase(domain@)),
                filter: FilterModel {
                    exact_allows: old(self)@.filter.exact_allows.insert(str_to_lowercase(domain@)),
                    ..old(self)@.filter
                },
                ..old(self)@
            }),
            final(self).spec_config() == old(self).spec_config(),
            final(self).spec_stats() == old(self).spec_stats(),
    {
        proof {
            use_type_invariant(&*self);
        }
        let d = to_lowercase(&chars_of(domain));
        let mut list = Vec::new();
        std::mem::swap(&mut list, &mut self.whitelist);
        list_insert(&mut list, &d);
        self.whitelist = list;
        let mut engine = FilterEngine::new();
        std::mem::swap(&mut engine, &mut self.filter_engine);
        engine.add_rule(Rule { pattern: string_of(&d), rule_type: RuleType2::Allow });
        self.filter_engine = engine;
    }

    /// Stops allowing a domain (lowercased): unlists it and drops its exact
    /// allow rule; a block rule for it stays.
    pub fn remove_whitelist(&mut self, domain: &str)
        ensures
            final(self)@ == (CoreView {
                whitelist: set_remove(old(self)@.whitelist, str_to_lowercase(domain@)),
                filter: FilterModel {
                    exact_allows: old(self)@.filter.exact_allows.remove(str_to_lowercase(domain@)),
                    ..old(self)@.filter
                },
                ..old(self)@
            }),
            final(self).spec_config() == old(self).spec_config(),
            final(self).spec_stats() == old(self).spec_stats(),
    {
        proof {
            use_type_invariant(&*self);
        }
        let d = to_lowercase(&chars_of(domain));
        let mut list = Vec::new();
        std::mem::swap(&mut list, &mut self.whitelist);
        list_remove(&mut list, &d);
        self.whitelist = list;
        let mut engine = FilterEngine::new();
        std::mem::swap(&mut engine, &mut self.filter_engine);
        let ds = string_of(&d);
        engine.remove_exact_rule(ds.as_str(), RuleType2::Allow);
        self.filter_engine = engine;
    }

    /// Blocks a domain (lowercased): lists it and adds an exact block rule.
    pub fn add_blacklist(&mut self, domain: &str)
        ensures
            final(self)@ == (CoreView {
                blacklist: set_insert(old(self)@.blacklist, str_to_lowercase(domain@)),
                filter: FilterModel {
                    exact_blocks: old(self)@.filter.exact_blocks.insert(str_to_lowercase(domain@)),
                    ..old(self)@.filter
                },
                ..old(self)@
            }),
            final(self).spec_config() == old(self).spec_config(),
            final(self).spec_stats() == old(self).spec_stats(),
    {
        proof {
            use_type_invariant(&*self);
        }
        let d = to_lowercase(&chars_of(domain));
        let mut list = Vec::new();
        std::mem::swap(&mut list, &mut self.blacklist);
        list_insert(&mut list, &d);
        self.blacklist = list;
        let mut engine = FilterEngine::new();
        std::mem::swap(&mut engine, &mut self.filter_engine);
        engine.add_rule(Rule { pattern: string_of(&d), rule_type: RuleType2::Block });
        self.filter_engine = engine;
    }

    /// Stops blocking a domain (lowercased): unlists it and drops its exact
    /// block rule; an allow rule for it stays.
    pub fn remove_blacklist(&mut self, domain: &str)
        ensures
            final(self)@ == (CoreView {
                blacklist: set_remove(old(self)@.blacklist, str_to_lowercase(domain@)),
                filter: FilterModel {
                    exact_blocks: old(self)@.filter.exact_blocks.remove(str_to_lowercase(domain@)),
                    ..old(self)@.filter
                },
                ..old(self)@
            }),
            final(self).spec_config() == old(self).spec_config(),
            final(self).spec_stats() == old(self).spec_stats(),
    {
        proof {
            use_type_invariant(&*self);
        }
        let d = to_lowercase(&chars_of(domain));
        let mut list = Vec::new();
        std::mem::swap(&mut list, &mut self.blacklist);
        list_remove(&mut list, &d);
        self.blacklist = list;
        let mut engine = FilterEngine::new();
        std::mem::swap(&mut engine, &mut self.filter_engine);
        let ds = string_of(&d);
        engine.remove_exact_rule(ds.as_str(), RuleType2::Block);
        self.filter_engine = engine;
    }

    fn copy_list(list: &Vec<String>) -> (r: Vec<String>)
        ensures
            views(r@) == views(list@),
    {
        let mut r: Vec<String> = Vec::new();
        let mut i: usize = 0;
        while i < list.len()
            invariant
                i <= list.len(),
                views(r@) == views(list@).take(i as int),
            decreases list.len() - i,
        {
            let s = list[i].clone();
            let ghost before = views(r@);
            r.push(s);
            assert(views(r@) =~= before.push(s@));
            assert(views(list@).take(i + 1) =~= views(list@).take(i as int).push(list@[i as int]@));
            i += 1;
        }
        assert(views(list@).take(list.len() as int) =~= views(list@));
        r
    }

    pub fn get_whitelist(&self) -> (r: Vec<String>)
        ensures
            views(r@) == self@.whitelist,
    {
        Self::copy_list(&self.whitelist)
    }

    pub fn get_blacklist(&self) -> (r: Vec<String>)
        ensures
            views(r@) == self@.blacklist,
    {
        Self::copy_list(&self.blacklist)
    }

    pub fn get_dns_providers(&self) -> (r: Vec<DnsProvider>)
        ensures
            r@.map_values(|p: DnsProvider| p@) == self@.providers,
    {
        let mut r: Vec<DnsProvider> = Vec::new();
        let mut i: usize = 0;
        while i < self.dns_providers.len()
            invariant
                i <= self.dns_providers.len(),
                r@.map_values(|p: DnsProvider| p@) == self@.providers.take(i as int),
            decreases self.dns_providers.len() - i,
        {
            let p = self.dns_providers[i].duplicate();
            let ghost before = r@.map_values(|p: DnsProvider| p@);
            r.push(p);
            assert(r@.map_values(|p: DnsProvider| p@) =~= before.push(p@));
            assert(self@.providers.take(i + 1) =~= self@.providers.take(i as int).push(
                self.dns_providers@[i as int]@,
            ));
            i += 1;
        }
        assert(self@.providers.take(self.dns_providers.len() as int) =~= self@.providers);
        r
    }

    fn find_provider(&self, id: &Vec<char>) -> (r: Option<usize>)
        ensures
            match r {
                Some(i) => i < self@.providers.len() && self@.providers[i as int].id == id@
                    && forall|k: int| 0 <= k < i ==> self@.providers[k].id != id@,
                None => forall|k: int| 0 <= k < self@.providers.len() ==> self@.providers[k].id != id@,
            },
    {
        let mut i: usize = 0;
        while i < self.dns_providers.len()
            invariant
                i <= self.dns_providers.len(),
                forall|k: int| 0 <= k < i ==> self@.providers[k].id != id@,
            decreases self.dns_providers.len() - i,
        {
            assert(self@.providers[i as int].id == self.dns_providers@[i as int].id@);
            if eq_chars(&chars_of(self.dns_providers[i].id.as_str()), id) {
                return Some(i);
            }
            i += 1;
        }
        None
    }

    /// Picks the provider with the given id; refused with a message when
    /// none has it.
    pub fn set_dns_provider(&mut self, id: &str) -> (r: Result<(), String>)
        ensures
            final(self)@ == old(self)@,
            final(self).spec_stats() == old(self).spec_stats(),
            (exists|k: int| 0 <= k < old(self)@.providers.len() && old(self)@.providers[k].id == id@)
                ==> r is Ok && final(self).spec_config().dns_provider_id@ == id@
                && final(self).spec_config() == (AppConfig {
                    dns_provider_id: final(self).spec_config().dns_provider_id,
                    ..old(self).spec_config()
                }),
            !(exists|k: int| 0 <= k < old(self)@.providers.len() && old(self)@.providers[k].id == id@)
                ==> (r matches Err(msg) && msg@ == "DNS provider '"@ + id@ + "' not found"@)
                && final(self).spec_config() == old(self).spec_config(),
    {
        proof {
            use_type_invariant(&*self);
        }
        match self.find_provider(&chars_of(id)) {
            Some(_) => {
                self.config.dns_provider_id = String::from_str(id);
                Ok(())
            },
            None => {
                let mut msg = String::from_str("DNS provider '");
                msg.append(id);
                msg.append("' not found");
                Err(msg)
            },
        }
    }

    /// The provider protection uses: the first with the configured id, or
    /// the first of all when none has it.
    pub fn selected_provider(&self) -> (r: DnsProvider)
        ensures
            r@ == spec_selected_provider(self@.providers, self.spec_config().dns_provider_id@),
    {
        proof {
            use_type_invariant(self);
        }
        let ghost ps = self@.providers;
        let ghost id = self.config.dns_provider_id@;
        match self.find_provider(&chars_of(self.config.dns_provider_id.as_str())) {
            Some(i) => {
                proof {
                    let k = first_with_id(ps, id)->0;
                    assert(ps[i as int].id == id);
                    if k < i {
                        assert(ps[k].id != id);
                    }
                    if i < k {
                        assert(ps[i as int].id != id);
                    }
                }
                assert(self@.providers[i as int] == self.dns_providers@[i as int]@);
                self.dns_providers[i].duplicate()
            },
            None => {
                assert(self@.providers[0] == self.dns_providers@[0]@);
                self.dns_providers[0].duplicate()
            },
        }
    }

    /// Adds one exact block rule per domain, taken as it is.
    pub fn add_blocked_domains(&mut self, domains: Vec<String>)
        ensures
            final(self)@ == (CoreView {
                filter: FilterModel {
                    exact_blocks: old(self)@.filter.exact_blocks.union(views(domains@).to_set()),
                    ..old(self)@.filter
                },
                ..old(self)@
            }),
            final(self).spec_config() == old(self).spec_config(),
            final(self).spec_stats() == old(self).spec_stats(),
    {
        proof {
            use_type_invariant(&*self);
        }
        let mut engine = FilterEngine::new();
        std::mem::swap(&mut engine, &mut self.filter_engine);
        let ghost f0 = engine@;
        let ghost dv = views(domains@);
        let mut rest = domains;
        let mut i: usize = 0;
        let n = rest.len();
        let ghost all = rest@;
        assert(f0.exact_blocks.union(dv.take(0).to_set()) =~= f0.exact_blocks);
        while rest.len() > 0
            invariant
                i + rest.len() == n,
                n == all.len(),
                dv == views(all),
                rest@ == all.skip(i as int),
                engine@ == (FilterModel { exact_blocks: f0.exact_blocks.union(dv.take(i as int).to_set()), ..f0 }),
            decreases rest.len(),
        {
            let d = rest.remove(0);
            assert(d == all[i as int]);
            assert(rest@ =~= all.skip(i + 1));
            engine.add_rule(Rule { pattern: d, rule_type: RuleType2::Block });
            assert(dv.take(i + 1) =~= dv.take(i as int).push(dv[i as int]));
            proof {
                dv.take(i as int).lemma_push_to_set_commute(dv[i as int]);
            }
            assert(f0.exact_blocks.union(dv.take(i + 1).to_set()) =~= f0.exact_blocks.union(
                dv.take(i as int).to_set(),
            ).insert(dv[i as int]));
            i += 1;
        }
        assert(dv.take(n as int) =~= dv);
        self.filter_engine = engine;
    }

    /// Turns protection on or off.
    pub fn set_protection(&mut self, enabled: bool)
        ensures
            final(self)@ == (CoreView { protection_enabled: enabled, ..old(self)@ }),
            final(self).spec_config() == old(self).spec_config(),
            final(self).spec_stats() == old(self).spec_stats(),
    {
        proof {
            use_type_invariant(&*self);
        }
        self.protection_enabled = enabled;
    }

    /// Starts the uptime clock.
    pub fn mark_started(&mut self)
        ensures
            final(self)@ == old(self)@,
            final(self).spec_stats().spec_started(),
            final(self).spec_stats().total_queries == old(self).spec_stats().total_queries,
            final(self).spec_stats().blocked_queries == old(self).spec_stats().blocked_queries,
            final(self).spec_stats().cache_hits == old(self).spec_stats().cache_hits,
            final(self).spec_config() == old(self).spec_config(),
    {
        proof {
            use_type_invariant(&*self);
        }
        let mut st = LiveStats::new();
        std::mem::swap(&mut st, &mut self.stats);
        st.mark_started();
        self.stats = st;
    }

    pub fn is_protection_enabled(&self) -> (r: bool)
        ensures
            r == self@.protection_enabled,
    {
        self.protection_enabled
    }

    pub fn config(&self) -> (r: &AppConfig)
        ensures
            *r == self.spec_config(),
    {
        &self.config
    }

    pub fn update_config(&mut self, config: AppConfig)
        ensures
            final(self)@ == old(self)@,
            final(self).spec_config() == config,
            final(self).spec_stats() == old(self).spec_stats(),
    {
        proof {
            use_type_invariant(&*self);
        }
        self.config = config;
    }

    pub fn stats(&self) -> (r: &LiveStats)
        ensures
            *r == self.spec_stats(),
    {
        &self.stats
    }

    pub fn filter(&self) -> (r: &FilterEngine)
        ensures
            r@ == self@.filter,
    {
        &self.filter_engine
    }

    /// What the user interface shows: whether protection is on, the chosen
    /// provider id, the uptime and the number of filter rules.
    pub fn status(&self) -> (r: ProtectionStatus)
        ensures
            r.enabled == self@.protection_enabled,
            r.dns_provider@ == self.spec_config().dns_provider_id@,
            !self.spec_stats().spec_started() ==> r.uptime_seconds == 0,
            r.total_rules as int == spec_rule_count(self@.filter),
    {
        ProtectionStatus {
            enabled: self.protection_enabled,
            dns_provider: self.config.dns_provider_id.clone(),
            uptime_seconds: self.stats.uptime_seconds(),
            total_rules: self.filter_engine.rule_count(),
        }
    }
}

/// A domain added to an allow or block list is on it; once removed, it is
/// not, and every other domain keeps its place on the list.
pub proof fn law_list_add_remove(s: Seq<Seq<char>>, d: Seq<char>, e: Seq<char>)
    ensures
        set_insert(s, d).contains(d),
        !set_remove(s, d).contains(d),
        e != d ==> (set_remove(s, d).contains(e) <==> s.contains(e)),
{
    let pred = other_than(d);
    if !s.contains(d) {
        assert(s.push(d)[s.len() as int] == d);
    }
    if set_remove(s, d).contains(d) {
        let i = choose|i: int| 0 <= i < set_remove(s, d).len() && set_remove(s, d)[i] == d;
        s.lemma_filter_pred(pred, i);
    }
    if e != d {
        if s.contains(e) {
            let i = choose|i: int| 0 <= i < s.len() && s[i] == e;
            s.lemma_filter_contains(pred, i);
        }
        if set_remove(s, d).contains(e) {
            s.lemma_filter_contains_rev(pred, e);
        }
    }
}

/// The log never holds more than its capacity.
pub proof fn law_log_stays_bounded(log: Seq<EventView>, e: EventView)
    requires
        log.len() <= LOG_CAPACITY,
    ensures
        spec_push_log(log, e).len() <= LOG_CAPACITY,
        spec_push_log(log, e).last() == e,
{
}

/// The newest event logged is the first one `get_logs` returns.
pub proof fn law_newest_event_first(log: Seq<EventView>, e: EventView, limit: Option<usize>)
    requires
        limit matches Some(n) ==> n > 0,
    ensures
        spec_recent(spec_push_log(log, e), limit)[0] == e,
{
}


/// The report of a blocklist update: how many rules were loaded from how
/// many lists.
pub fn update_message(total_rules: u64, lists: u64) -> (r: String)
    ensures
        r@ == "Loaded "@ + spec_decimal(total_rules as nat) + " blocking rules from "@ + spec_decimal(
            lists as nat,
        ) + " lists"@,
{
    let mut m = String::from_str("Loaded ");
    m.append(decimal_string(total_rules).as_str());
    m.append(" blocking rules from ");
    m.append(decimal_string(lists).as_str());
    m.append(" lists");
    m
}

/// What turning protection on needs: the provider in use, its two servers
/// on port 53, where the resolver listens, the cache size, and the server
/// the system is pointed at.
#[derive(Debug)]
pub struct ProtectionPlan {
    pub provider: DnsProvider,
    pub primary_address: String,
    pub secondary_address: String,
    pub listen_address: String,
    pub cache_size: u32,
    pub system_dns: Vec<String>,
}

impl AppCore {
    /// The plan for turning protection on with the current settings.
    pub fn protection_plan(&self) -> (r: ProtectionPlan)
        ensures
            r.provider@ == spec_selected_provider(self@.providers, self.spec_config().dns_provider_id@),
            r.primary_address@ == r.provider.primary@ + ":53"@,
            r.secondary_address@ == r.provider.secondary@ + ":53"@,
            r.listen_address@ == self.spec_config().listen_address@ + ":"@ + spec_decimal(
                self.spec_config().port as nat,
            ),
            r.cache_size == self.spec_config().cache_size,
            views(r.system_dns@) == seq![self.spec_config().listen_address@],
    {
        let provider = self.selected_provider();
        let mut primary = provider.primary.clone();
        primary.append(":53");
        let mut secondary = provider.secondary.clone();
        secondary.append(":53");
        let mut listen = self.config.listen_address.clone();
        listen.append(":");
        listen.append(decimal_string(self.config.port as u64).as_str());
        let mut system_dns: Vec<String> = Vec::new();
        system_dns.push(self.config.listen_address.clone());
        assert(views(system_dns@) =~= seq![self.config.listen_address@]);
        ProtectionPlan {
            provider,
            primary_address: primary,
            secondary_address: secondary,
            listen_address: listen,
            cache_size: self.config.cache_size,
            system_dns,
        }
    }
}

/// The resolver's settings for protection: listening on `listen`,
/// forwarding to the provider's two servers as plain DNS, five seconds and
/// two retries, `cache_size` entries; the other settings as by default.
pub fn protection_server_config(
    listen: SocketAddress,
    primary: SocketAddress,
    secondary: SocketAddress,
    cache_size: u32,
) -> (r: DnsServerConfig)
    ensures
        r.listen_addr == listen,
        r.upstream.providers.len() == 1,
        r.upstream.providers[0] matches UpstreamProvider::Custom(es) && entry_views(es@) == seq![
            plain(primary, None),
            plain(secondary, None),
        ],
        r.upstream.timeout_secs == 5,
        r.upstream.retries == 2,
        r.cache_size == cache_size,
        r.max_ttl == 86400,
        r.min_ttl == 60,
{
    let mut entries: Vec<UpstreamEntry> = Vec::new();
    entries.push(UpstreamEntry { address: primary, protocol: UpstreamProtocol::Plain, hostname: None, doh_url: None });
    entries.push(UpstreamEntry { address: secondary, protocol: UpstreamProtocol::Plain, hostname: None, doh_url: None });
    assert(entry_views(entries@) =~= seq![plain(primary, None), plain(secondary, None)]);
    let mut providers: Vec<UpstreamProvider> = Vec::new();
    providers.push(UpstreamProvider::Custom(entries));
    let d = DnsServerConfig::default();
    DnsServerConfig {
        listen_addr: listen,
        upstream: UpstreamConfig { providers, timeout_secs: 5, retries: 2 },
        cache_size: cache_size as usize,
        max_ttl: d.max_ttl,
        min_ttl: d.min_ttl,
    }
}

} // verus!
