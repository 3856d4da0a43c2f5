//! Upstream DNS providers and the order in which a resolver tries them.

use vstd::prelude::*;

use crate::text::views;

verus! {

broadcast use vstd::string::group_string_axioms;

/// An IP address: IPv4 as four octets, IPv6 as its 128-bit value.
#[derive(Debug, Clone, Copy, PartialEq, Eq, Structural)]
pub enum IpAddress {
    V4(u8, u8, u8, u8),
    V6(u128),
}

/// An IP address and a port.
#[derive(Debug, Clone, Copy, PartialEq, Eq, Structural)]
pub struct SocketAddress {
    pub ip: IpAddress,
    pub port: u16,
}

pub open spec fn v4(a: u8, b: u8, c: u8, d: u8, port: u16) -> SocketAddress {
    SocketAddress { ip: IpAddress::V4(a, b, c, d), port }
}

pub fn socket_v4(a: u8, b: u8, c: u8, d: u8, port: u16) -> (r: SocketAddress)
    ensures
        r == v4(a, b, c, d, port),
{
    SocketAddress { ip: IpAddress::V4(a, b, c, d), port }
}

#[derive(Debug, Clone, Copy, PartialEq, Eq, Structural)]
pub enum UpstreamProtocol {
    Plain,
    DoH,
    DoT,
}

/// One upstream server.
#[derive(Debug)]
pub struct UpstreamEntry {
    pub address: SocketAddress,
    pub protocol: UpstreamProtocol,
    pub hostname: Option<String>,
    pub doh_url: Option<String>,
}

pub ghost struct EntrySpec {
    pub address: SocketAddress,
    pub protocol: UpstreamProtocol,
    pub hostname: Option<Seq<char>>,
    pub doh_url: Option<Seq<char>>,
}

pub open spec fn opt_view(o: Option<String>) -> Option<Seq<char>> {
    match o {
        Some(s) => Some(s@),
        None => None,
    }
}

impl View for UpstreamEntry {
    type V = EntrySpec;

    open spec fn view(&self) -> EntrySpec {
        EntrySpec {
            address: self.address,
            protocol: self.protocol,
            hostname: opt_view(self.hostname),
            doh_url: opt_view(self.doh_url),
        }
    }
}

pub open spec fn entry_views(v: Seq<UpstreamEntry>) -> Seq<EntrySpec> {
    v.map_values(|e: UpstreamEntry| e@)
}

impl UpstreamEntry {
    /// An entry with the same fields.
    pub fn duplicate(&self) -> (r: Self)
        ensures
            r@ == self@,
    {
        UpstreamEntry {
            address: self.address,
            protocol: self.protocol,
            hostname: match &self.hostname {
                Some(h) => Some(h.clone()),
                None => None,
            },
            doh_url: match &self.doh_url {
                Some(u) => Some(u.clone()),
                None => None,
            },
        }
    }
}

/// A named provider or a custom list of servers.
#[derive(Debug)]
pub enum UpstreamProvider {
    Cloudflare,
    AdGuard,
    Mullvad,
    Google,
    Custom(Vec<UpstreamEntry>),
}

/// The upstream settings: providers in order, the timeout of one attempt in
/// seconds, and how many extra rounds over all servers are tried.
#[derive(Debug)]
pub struct UpstreamConfig {
    pub providers: Vec<UpstreamProvider>,
    pub timeout_secs: u64,
    pub retries: u8,
}

impl UpstreamConfig {
    /// AdGuard, five seconds, two retries.
    pub fn default() -> (r: Self)
        ensures
            r.providers.len() == 1,
            r.providers[0] is AdGuard,
            r.timeout_secs == 5,
            r.retries == 2,
    {
        let mut providers = Vec::new();
        providers.push(UpstreamProvider::AdGuard);
        UpstreamConfig { providers, timeout_secs: 5, retries: 2 }
    }
}

pub open spec fn plain(address: SocketAddress, hostname: Option<Seq<char>>) -> EntrySpec {
    EntrySpec { address, protocol: UpstreamProtocol::Plain, hostname, doh_url: None }
}

/// The servers of a provider.
pub open spec fn provider_entries(p: UpstreamProvider) -> Seq<EntrySpec> {
    match p {
        UpstreamProvider::Cloudflare => seq![
            plain(v4(1, 1, 1, 1, 53), Some("cloudflare-dns.com"@)),
            plain(v4(1, 0, 0, 1, 53), Some("cloudflare-dns.com"@)),
        ],
        UpstreamProvider::AdGuard => seq![
            plain(v4(94, 140, 14, 14, 53), Some("dns.adguard-dns.com"@)),
            plain(v4(94, 140, 15, 15, 53), Some("dns.adguard-dns.com"@)),
        ],
        UpstreamProvider::Mullvad => seq![
            plain(v4(194, 242, 2, 2, 53), Some("dns.mullvad.net"@)),
            plain(v4(194, 242, 2, 3, 53), Some("dns.mullvad.net"@)),
        ],
        UpstreamProvider::Google => seq![
            plain(v4(8, 8, 8, 8, 53), None),
            plain(v4(8, 8, 4, 4, 53), None),
        ],
        UpstreamProvider::Custom(entries) => entry_views(entries@),
    }
}

fn plain_entry(address: SocketAddress, hostname: Option<&str>) -> (r: UpstreamEntry)
    ensures
        r@ == plain(
            address,
            match hostname {
                Some(h) => Some(h@),
                None => None,
            },
        ),
{
    UpstreamEntry {
        address,
        protocol: UpstreamProtocol::Plain,
        hostname: match hostname {
            Some(h) => Some(String::from_str(h)),
            None => None,
        },
        doh_url: None,
    }
}

impl UpstreamProvider {
    /// The servers of this provider, in order.
    pub fn to_entries(&self) -> (r: Vec<UpstreamEntry>)
        ensures
            entry_views(r@) == provider_entries(*self),
    {
        let mut r: Vec<UpstreamEntry> = Vec::new();
        match self {
            UpstreamProvider::Cloudflare => {
                r.push(plain_entry(socket_v4(1, 1, 1, 1, 53), Some("cloudflare-dns.com")));
                r.push(plain_entry(socket_v4(1, 0, 0, 1, 53), Some("cloudflare-dns.com")));
            },
            UpstreamProvider::AdGuard => {
                r.push(plain_entry(socket_v4(94, 140, 14, 14, 53), Some("dns.adguard-dns.com")));
                r.push(plain_entry(socket_v4(94, 140, 15, 15, 53), Some("dns.adguard-dns.com")));
            },
            UpstreamProvider::Mullvad => {
                r.push(plain_entry(socket_v4(194, 242, 2, 2, 53), Some("dns.mullvad.net")));
                r.push(plain_entry(socket_v4(194, 242, 2, 3, 53), Some("dns.mullvad.net")));
            },
            UpstreamProvider::Google => {
                r.push(plain_entry(socket_v4(8, 8, 8, 8, 53), None));
                r.push(plain_entry(socket_v4(8, 8, 4, 4, 53), None));
            },
            UpstreamProvider::Custom(entries) => {
                let mut i: usize = 0;
                while i < entries.len()
                    invariant
                        i <= entries.len(),
                        entry_views(r@) == entry_views(entries@).take(i as int),
                    decreases entries.len() - i,
                {
                    let e = entries[i].duplicate();
                    let ghost before = entry_views(r@);
                    r.push(e);
                    assert(entry_views(r@) =~= before.push(e@));
                    assert(entry_views(entries@).take(i + 1) =~= entry_views(entries@).take(
                        i as int,
                    ).push(entries@[i as int]@));
                    i += 1;
                }
                assert(entry_views(entries@).take(entries.len() as int) =~= entry_views(
                    entries@,
                ));
                return r;
            },
        }
        assert(entry_views(r@) =~= provider_entries(*self));
        r
    }
}

/// The address a resolver sends plain DNS to for an entry: DNS-over-HTTPS
/// entries fall back to port 53 of the same host.
pub open spec fn server_address(e: EntrySpec) -> SocketAddress {
    match e.protocol {
        UpstreamProtocol::DoH => SocketAddress { port: 53, ..e.address },
        _ => e.address,
    }
}

/// The server addresses of all providers, in order.
pub open spec fn servers_of(ps: Seq<UpstreamProvider>) -> Seq<SocketAddress>
    decreases ps.len(),
{
    if ps.len() == 0 {
        seq![]
    } else {
        servers_of(ps.drop_last()) + provider_entries(ps.last()).map_values(
            |e: EntrySpec| server_address(e),
        )
    }
}

/// The servers a resolver uses: those of the providers, or Google's two
/// public servers when there are none.
pub open spec fn spec_resolver_servers(ps: Seq<UpstreamProvider>) -> Seq<SocketAddress> {
    if servers_of(ps).len() == 0 {
        seq![v4(8, 8, 8, 8, 53), v4(8, 8, 4, 4, 53)]
    } else {
        servers_of(ps)
    }
}

/// A resolver's servers and settings.
pub struct UpstreamResolver {
    config: UpstreamConfig,
    servers: Vec<SocketAddress>,
}

impl UpstreamResolver {
    pub closed spec fn spec_servers(&self) -> Seq<SocketAddress> {
        self.servers@
    }

    pub closed spec fn spec_config(&self) -> UpstreamConfig {
        self.config
    }

    pub fn new(config: UpstreamConfig) -> (r: Self)
        ensures
            r.spec_servers() == spec_resolver_servers(config.providers@),
            r.spec_config() == config,
    {
        let mut servers: Vec<SocketAddress> = Vec::new();
        let mut i: usize = 0;
        while i < config.providers.len()
            invariant
                i <= config.providers.len(),
                servers@ == servers_of(config.providers@.take(i as int)),
            decreases config.providers.len() - i,
        {
            let entries = config.providers[i].to_entries();
            let ghost before = servers@;
            let mut j: usize = 0;
            while j < entries.len()
                invariant
                    j <= entries.len(),
                    servers@ == before + entry_views(entries@).take(j as int).map_values(
                        |e: EntrySpec| server_address(e),
                    ),
                decreases entries.len() - j,
            {
                let e = &entries[j];
                let addr = match e.protocol {
                    UpstreamProtocol::Plain | UpstreamProtocol::DoT => e.address,
                    UpstreamProtocol::DoH => SocketAddress { port: 53, ..e.address },
                };
                servers.push(addr);
                assert(entry_views(entries@).take(j + 1) =~= entry_views(entries@).take(
                    j as int,
                ).push(entries@[j as int]@));
                assert(servers@ =~= before + entry_views(entries@).take(j + 1).map_values(
                    |e: EntrySpec| server_address(e),
                ));
                j += 1;
            }
            assert(entry_views(entries@).take(entries.len() as int) =~= entry_views(entries@));
            assert(config.providers@.take(i + 1).drop_last() =~= config.providers@.take(i as int));
            i += 1;
        }
        assert(config.providers@.take(config.providers.len() as int) =~= config.providers@);
        if servers.len() == 0 {
            servers.push(socket_v4(8, 8, 8, 8, 53));
            servers.push(socket_v4(8, 8, 4, 4, 53));
            assert(servers@ =~= seq![v4(8, 8, 8, 8, 53), v4(8, 8, 4, 4, 53)]);
        }
        UpstreamResolver { config, servers }
    }

    /// The servers, in the order they are tried within one round.
    pub fn servers(&self) -> (r: &Vec<SocketAddress>)
        ensures
            r@ == self.spec_servers(),
    {
        &self.servers
    }

    /// Every attempt a resolution makes until one answers: all servers in
    /// order, for `retries + 1` rounds.
    pub fn attempt_order(&self) -> (r: Vec<SocketAddress>)
        ensures
            r@.len() == (self.spec_config().retries + 1) * self.spec_servers().len(),
            forall|k: int|
                0 <= k < r@.len() ==> #[trigger] r@[k] == self.spec_servers()[k
                    % self.spec_servers().len() as int],
    {
        let n = self.servers.len();
        let rounds: usize = self.config.retries as usize + 1;
        let mut r: Vec<SocketAddress> = Vec::new();
        let mut round: usize = 0;
        while round < rounds
            invariant
                round <= rounds,
                rounds == self.config.retries + 1,
                n == self.servers@.len(),
                r@.len() == round * n,
                forall|k: int| 0 <= k < r@.len() ==> #[trigger] r@[k] == self.servers@[k % n as int],
            decreases rounds - round,
        {
            let mut j: usize = 0;
            while j < n
                invariant
                    j <= n,
                    n == self.servers@.len(),
                    round < rounds,
                    rounds == self.config.retries + 1,
                    r@.len() == round * n + j,
                    forall|k: int|
                        0 <= k < r@.len() ==> #[trigger] r@[k] == self.servers@[k % n as int],
                decreases n - j,
            {
                proof {
                    vstd::arithmetic::div_mod::lemma_fundamental_div_mod_converse(
                        (round * n + j) as int,
                        n as int,
                        round as int,
                        j as int,
                    );
                }
                r.push(self.servers[j]);
                j += 1;
            }
            proof {
                vstd::arithmetic::mul::lemma_mul_is_distributive_add_other_way(
                    n as int,
                    round as int,
                    1,
                );
            }
            round += 1;
        }
        proof {
            vstd::arithmetic::mul::lemma_mul_is_commutative(rounds as int, n as int);
        }
        r
    }
}

} // verus!
