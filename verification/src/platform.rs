//! System DNS settings on Linux, macOS and Windows: how the output of the
//! system tools is read into network interfaces, and which commands (or
//! which `/etc/resolv.conf`) point the system at our resolver and later put
//! the saved settings back. Running the commands is the caller's part.

use vstd::prelude::*;

use crate::text::{
    before_char, before_char_chars, chars_of, contains_chars, has_infix, has_prefix, join_strings, lines, lines_chars,
    lit, slice_chars, spec_join, split, split_chars, starts_with, string_of, trim, trim_chars,
    views, words, words_chars, no_whitespace, whitespace, lemma_two_words, lemma_lines_of_joined,
    lemma_split_from_concat,
};

verus! {

broadcast use vstd::string::group_string_axioms;

#[verifier::external_type_specification]
#[verifier::external_body]
pub struct ExIoError(std::io::Error);

/// Why a change of the system's DNS settings failed.
#[derive(Debug)]
pub enum PlatformError {
    CommandFailed { command: String, reason: String },
    Io(std::io::Error),
    NoInterface,
    Unsupported,
    PermissionDenied(String),
}

/// A network interface and the DNS servers it uses.
#[derive(Debug, Clone)]
pub struct NetworkInterface {
    pub name: String,
    pub dns_servers: Vec<String>,
    pub is_active: bool,
}

pub ghost struct IfaceView {
    pub name: Seq<char>,
    pub dns: Seq<Seq<char>>,
    pub active: bool,
}

impl View for NetworkInterface {
    type V = IfaceView;

    open spec fn view(&self) -> IfaceView {
        IfaceView { name: self.name@, dns: views(self.dns_servers@), active: self.is_active }
    }
}

pub open spec fn iface_views(v: Seq<NetworkInterface>) -> Seq<IfaceView> {
    v.map_values(|i: NetworkInterface| i@)
}

/// The DNS settings saved before they were changed.
#[derive(Debug, Clone)]
pub struct DnsBackup {
    pub interfaces: Vec<NetworkInterface>,
}

/// A program to run and its arguments.
#[derive(Debug)]
pub struct Command {
    pub program: String,
    pub args: Vec<String>,
}

pub ghost struct CommandView {
    pub program: Seq<char>,
    pub args: Seq<Seq<char>>,
}

impl View for Command {
    type V = CommandView;

    open spec fn view(&self) -> CommandView {
        CommandView { program: self.program@, args: views(self.args@) }
    }
}

/// One step of changing the DNS settings.
#[derive(Debug)]
pub enum DnsAction {
    /// Run a command; a failure ends the change with that error.
    Run(Command),
    /// Replace `/etc/resolv.conf` with this text.
    WriteResolvConf(String),
}

pub ghost enum ActionView {
    Run(CommandView),
    WriteResolvConf(Seq<char>),
}

pub open spec fn action_views(v: Seq<DnsAction>) -> Seq<ActionView> {
    v.map_values(
        |a: DnsAction|
            match a {
                DnsAction::Run(c) => ActionView::Run(c@),
                DnsAction::WriteResolvConf(t) => ActionView::WriteResolvConf(t@),
            },
    )
}

pub open spec fn run(program: Seq<char>, args: Seq<Seq<char>>) -> ActionView {
    ActionView::Run(CommandView { program, args })
}

/// The actions for each interface, one interface after the other.
pub open spec fn per_iface(
    ifaces: Seq<IfaceView>,
    f: spec_fn(IfaceView) -> Seq<ActionView>,
) -> Seq<ActionView>
    decreases ifaces.len(),
{
    if ifaces.len() == 0 {
        seq![]
    } else {
        per_iface(ifaces.drop_last(), f) + f(ifaces.last())
    }
}

proof fn lemma_per_iface_step(
    ifaces: Seq<IfaceView>,
    f: spec_fn(IfaceView) -> Seq<ActionView>,
    i: int,
)
    requires
        0 <= i < ifaces.len(),
    ensures
        per_iface(ifaces.take(i + 1), f) == per_iface(ifaces.take(i), f) + f(ifaces[i]),
{
    assert(ifaces.take(i + 1).drop_last() =~= ifaces.take(i));
}

fn strings(parts: Vec<&str>) -> (r: Vec<String>)
    ensures
        views(r@) == parts@.map_values(|s: &str| s@),
{
    let mut r: Vec<String> = Vec::new();
    let mut i: usize = 0;
    while i < parts.len()
        invariant
            i <= parts.len(),
            views(r@) == parts@.map_values(|s: &str| s@).take(i as int),
        decreases parts.len() - i,
    {
        let ghost before = views(r@);
        r.push(String::from_str(parts[i]));
        assert(views(r@) =~= before.push(parts@[i as int]@));
        assert(parts@.map_values(|s: &str| s@).take(i + 1) =~= parts@.map_values(|s: &str| s@).take(
            i as int,
        ).push(parts@[i as int]@));
        i += 1;
    }
    assert(parts@.map_values(|s: &str| s@).take(parts.len() as int) =~= parts@.map_values(
        |s: &str| s@,
    ));
    r
}

fn copy_strings(v: &Vec<String>) -> (r: Vec<String>)
    ensures
        views(r@) == views(v@),
{
    let mut r: Vec<String> = Vec::new();
    let mut i: usize = 0;
    while i < v.len()
        invariant
            i <= v.len(),
            views(r@) == views(v@).take(i as int),
        decreases v.len() - i,
    {
        let ghost before = views(r@);
        r.push(v[i].clone());
        assert(views(r@) =~= before.push(v@[i as int]@));
        assert(views(v@).take(i + 1) =~= views(v@).take(i as int).push(v@[i as int]@));
        i += 1;
    }
    assert(views(v@).take(v.len() as int) =~= views(v@));
    r
}

fn append_all(a: &mut Vec<String>, b: &Vec<String>)
    ensures
        views(final(a)@) == views(old(a)@) + views(b@),
{
    let ghost a0 = views(a@);
    let mut i: usize = 0;
    while i < b.len()
        invariant
            i <= b.len(),
            views(a@) == a0 + views(b@).take(i as int),
        decreases b.len() - i,
    {
        let ghost before = views(a@);
        a.push(b[i].clone());
        assert(views(a@) =~= before.push(b@[i as int]@));
        assert(a0 + views(b@).take(i + 1) =~= (a0 + views(b@).take(i as int)).push(b@[i as int]@));
        i += 1;
    }
    assert(views(b@).take(b.len() as int) =~= views(b@));
}

fn push_string(v: &mut Vec<String>, s: String)
    ensures
        views(final(v)@) == views(old(v)@).push(s@),
{
    let ghost before = views(v@);
    v.push(s);
    assert(views(v@) =~= before.push(s@));
}

fn command(program: &str, args: Vec<String>) -> (r: Command)
    ensures
        r@ == (CommandView { program: program@, args: views(args@) }),
{
    Command { program: String::from_str(program), args }
}

// ---------------------------------------------------------------------------
// Linux.
// ---------------------------------------------------------------------------

/// How DNS is configured on a Linux system.
#[derive(Debug, Clone, Copy, PartialEq, Eq, Structural)]
pub enum LinuxDnsMethod {
    SystemdResolved,
    NetworkManager,
    ResolvConf,
}

/// Changes DNS settings through systemd-resolved, NetworkManager or
/// `/etc/resolv.conf`.
#[derive(Debug)]
pub struct LinuxDnsManager {
    method: LinuxDnsMethod,
}

/// The method found by probing: systemd-resolved when `resolvectl status`
/// succeeds, else NetworkManager when `nmcli general status` succeeds, else
/// `/etc/resolv.conf`.
pub open spec fn spec_detected_method(resolvectl_ok: bool, nmcli_ok: bool) -> LinuxDnsMethod {
    if resolvectl_ok {
        LinuxDnsMethod::SystemdResolved
    } else if nmcli_ok {
        LinuxDnsMethod::NetworkManager
    } else {
        LinuxDnsMethod::ResolvConf
    }
}

/// `/etc/resolv.conf` naming the servers, one `nameserver` line each.
pub open spec fn spec_resolv_conf(servers: Seq<Seq<char>>) -> Seq<char> {
    spec_join(servers.map_values(|s: Seq<char>| "nameserver "@ + s), "\n"@) + "\n"@
}

/// The name servers `/etc/resolv.conf` lists: the second word of each line
/// that starts with `nameserver` and has one.
pub open spec fn spec_resolv_servers(ls: Seq<Seq<char>>) -> Seq<Seq<char>>
    decreases ls.len(),
{
    if ls.len() == 0 {
        seq![]
    } else {
        let l = ls.last();
        spec_resolv_servers(ls.drop_last()) + if has_prefix(l, "nameserver"@) && words(l).len()
            >= 2 {
            seq![words(l)[1]]
        } else {
            seq![]
        }
    }
}

/// A server fit for a `nameserver` line: not empty, without whitespace.
pub open spec fn plain_server(s: Seq<char>) -> bool {
    s.len() > 0 && no_whitespace(s)
}

proof fn lemma_nameserver_word()
    ensures
        no_whitespace("nameserver"@),
        "nameserver "@ == "nameserver"@ + seq![' '],
        "nameserver"@.len() == 10,
{
    reveal_strlit("nameserver");
    reveal_strlit("nameserver ");
    assert("nameserver "@ =~= "nameserver"@ + seq![' ']);
}

proof fn lemma_resolv_servers_of(servers: Seq<Seq<char>>)
    requires
        forall|i: int| 0 <= i < servers.len() ==> plain_server(#[trigger] servers[i]),
    ensures
        spec_resolv_servers(servers.map_values(|s: Seq<char>| "nameserver "@ + s)) == servers,
    decreases servers.len(),
{
    let ls = servers.map_values(|s: Seq<char>| "nameserver "@ + s);
    if servers.len() > 0 {
        let init = servers.drop_last();
        assert forall|i: int| 0 <= i < init.len() implies plain_server(#[trigger] init[i]) by {
            assert(init[i] == servers[i]);
        }
        lemma_resolv_servers_of(init);
        assert(ls.drop_last() =~= init.map_values(|s: Seq<char>| "nameserver "@ + s));
        let s = servers.last();
        assert(plain_server(servers[servers.len() - 1]));
        lemma_nameserver_word();
        let l = ls.last();
        assert(l == "nameserver"@ + seq![' '] + s);
        assert(whitespace(' '));
        lemma_two_words("nameserver"@, ' ', s);
        assert(l.take(10) =~= "nameserver"@);
        assert(has_prefix(l, "nameserver"@));
        assert(init + seq![s] =~= servers);
    }
}

/// Writing `/etc/resolv.conf` for some servers and reading it back gives
/// the same servers, in order: what the ResolvConf method puts back is what
/// was backed up.
pub proof fn law_resolv_conf_round_trip(servers: Seq<Seq<char>>)
    requires
        forall|i: int| 0 <= i < servers.len() ==> plain_server(#[trigger] servers[i]),
    ensures
        spec_resolv_servers(lines(spec_resolv_conf(servers))) == servers,
{
    let ls = servers.map_values(|s: Seq<char>| "nameserver "@ + s);
    reveal_strlit("\n");
    assert("\n"@ =~= seq!['\n']);
    lemma_nameserver_word();
    if servers.len() == 0 {
        assert(spec_resolv_conf(servers) =~= Seq::<char>::empty() + seq!['\n'] + Seq::<char>::empty());
        lemma_split_from_concat(Seq::<char>::empty(), Seq::<char>::empty(), '\n', seq![]);
        let l = lines(spec_resolv_conf(servers));
        assert(l.len() == 1 && l[0].len() == 0);
        assert(l.drop_last() =~= Seq::<Seq<char>>::empty());
        assert(!has_prefix(l.last(), "nameserver"@));
        assert(spec_resolv_servers(l.drop_last()) =~= Seq::<Seq<char>>::empty());
        assert(spec_resolv_servers(l) =~= Seq::<Seq<char>>::empty() + Seq::<Seq<char>>::empty());
        assert(spec_resolv_servers(l) =~= servers);
    } else {
        assert forall|i: int| 0 <= i < ls.len() implies !(#[trigger] ls[i]).contains('\n') && !(
        ls[i].len() > 0 && ls[i].last() == '\r') by {
            let s = servers[i];
            assert(plain_server(s));
            assert(ls[i] == "nameserver"@ + seq![' '] + s);
            if ls[i].contains('\n') {
                let k = choose|k: int| 0 <= k < ls[i].len() && ls[i][k] == '\n';
                if k < 10 {
                    assert(ls[i][k] == "nameserver"@[k]);
                    assert(!whitespace("nameserver"@[k]));
                } else if k > 10 {
                    assert(ls[i][k] == s[k - 11]);
                    assert(!whitespace(s[k - 11]));
                }
            }
            assert(ls[i].last() == s.last());
            assert(!whitespace(s[s.len() - 1]));
        }
        lemma_lines_of_joined(ls);
        lemma_resolv_servers_of(servers);
    }
}

/// A NetworkManager connection line (`NAME:DEVICE:TYPE:STATE`) that has all
/// four fields gives its name and device.
pub open spec fn spec_nm_connections(ls: Seq<Seq<char>>) -> Seq<(Seq<char>, Seq<char>)>
    decreases ls.len(),
{
    if ls.len() == 0 {
        seq![]
    } else {
        let parts = split(ls.last(), ':');
        spec_nm_connections(ls.drop_last()) + if parts.len() >= 4 {
            seq![(parts[0], parts[1])]
        } else {
            seq![]
        }
    }
}

/// The servers of `nmcli -t -f IP4.DNS connection show NAME`: of each line
/// that has a `:`, the text after it up to the next one, trimmed, when not
/// empty.
pub open spec fn spec_nm_dns(ls: Seq<Seq<char>>) -> Seq<Seq<char>>
    decreases ls.len(),
{
    if ls.len() == 0 {
        seq![]
    } else {
        let parts = split(ls.last(), ':');
        spec_nm_dns(ls.drop_last()) + if parts.len() >= 2 && trim(parts[1]).len() > 0 {
            seq![trim(parts[1])]
        } else {
            seq![]
        }
    }
}

pub open spec fn systemd_set(servers: Seq<Seq<char>>) -> spec_fn(IfaceView) -> Seq<ActionView> {
    |i: IfaceView| seq![run("resolvectl"@, seq!["dns"@, i.name] + servers)]
}

pub open spec fn nm_set(dns: Seq<char>) -> spec_fn(IfaceView) -> Seq<ActionView> {
    |i: IfaceView|
        seq![
            run(
                "nmcli"@,
                seq!["connection"@, "modify"@, i.name, "ipv4.dns"@, dns, "ipv4.ignore-auto-dns"@, "yes"@],
            ),
            run("nmcli"@, seq!["connection"@, "up"@, i.name]),
        ]
}

pub open spec fn systemd_restore() -> spec_fn(IfaceView) -> Seq<ActionView> {
    |i: IfaceView|
        if i.dns.len() == 0 {
            seq![run("resolvectl"@, seq!["revert"@, i.name])]
        } else {
            seq![run("resolvectl"@, seq!["dns"@, i.name] + i.dns)]
        }
}

pub open spec fn nm_restore() -> spec_fn(IfaceView) -> Seq<ActionView> {
    |i: IfaceView|
        seq![
            if i.dns.len() == 0 {
                run(
                    "nmcli"@,
                    seq!["connection"@, "modify"@, i.name, "ipv4.dns"@, ""@, "ipv4.ignore-auto-dns"@, "no"@],
                )
            } else {
                run("nmcli"@, seq!["connection"@, "modify"@, i.name, "ipv4.dns"@, spec_join(i.dns, " "@)])
            },
            run("nmcli"@, seq!["connection"@, "up"@, i.name]),
        ]
}

/// The actions that point the interfaces at `servers`.
pub open spec fn spec_linux_set(
    method: LinuxDnsMethod,
    ifaces: Seq<IfaceView>,
    servers: Seq<Seq<char>>,
) -> Seq<ActionView> {
    match method {
        LinuxDnsMethod::SystemdResolved => per_iface(ifaces, systemd_set(servers)),
        LinuxDnsMethod::NetworkManager => per_iface(ifaces, nm_set(spec_join(servers, " "@))),
        LinuxDnsMethod::ResolvConf => seq![ActionView::WriteResolvConf(spec_resolv_conf(servers))],
    }
}

/// The actions that put the saved settings back. For `/etc/resolv.conf`,
/// the servers of the first saved interface (none when nothing was saved).
pub open spec fn spec_linux_restore(method: LinuxDnsMethod, saved: Seq<IfaceView>) -> Seq<ActionView> {
    match method {
        LinuxDnsMethod::SystemdResolved => per_iface(saved, systemd_restore()),
        LinuxDnsMethod::NetworkManager => per_iface(saved, nm_restore()),
        LinuxDnsMethod::ResolvConf => seq![
            ActionView::WriteResolvConf(
                spec_resolv_conf(
                    if saved.len() > 0 {
                        saved[0].dns
                    } else {
                        seq![]
                    },
                ),
            ),
        ],
    }
}

/// The text of `/etc/resolv.conf` that names `servers`.
pub fn resolv_conf_content(servers: &Vec<String>) -> (r: String)
    ensures
        r@ == spec_resolv_conf(views(servers@)),
{
    let mut lines_v: Vec<String> = Vec::new();
    let mut i: usize = 0;
    let ghost sv = views(servers@);
    while i < servers.len()
        invariant
            i <= servers.len(),
            sv == views(servers@),
            views(lines_v@) == sv.map_values(|s: Seq<char>| "nameserver "@ + s).take(i as int),
        decreases servers.len() - i,
    {
        let mut l = String::from_str("nameserver ");
        l.append(servers[i].as_str());
        let ghost before = views(lines_v@);
        lines_v.push(l);
        assert(views(lines_v@) =~= before.push("nameserver "@ + sv[i as int]));
        assert(sv.map_values(|s: Seq<char>| "nameserver "@ + s).take(i + 1) =~= sv.map_values(
            |s: Seq<char>| "nameserver "@ + s,
        ).take(i as int).push("nameserver "@ + sv[i as int]));
        i += 1;
    }
    assert(sv.map_values(|s: Seq<char>| "nameserver "@ + s).take(servers.len() as int)
        =~= sv.map_values(|s: Seq<char>| "nameserver "@ + s));
    let mut r = join_strings(&lines_v, "\n");
    r.append("\n");
    r
}

/// The interface that stands for `/etc/resolv.conf`, with its servers.
pub fn parse_resolv_conf(content: &str) -> (r: NetworkInterface)
    ensures
        r@ == (IfaceView {
            name: "resolv.conf"@,
            dns: spec_resolv_servers(lines(content@)),
            active: true,
        }),
{
    let ls = lines_chars(&chars_of(content));
    let ghost lv = ls@.map_values(|v: Vec<char>| v@);
    let mut dns: Vec<String> = Vec::new();
    let mut i: usize = 0;
    while i < ls.len()
        invariant
            i <= ls.len(),
            lv == ls@.map_values(|v: Vec<char>| v@),
            lv == lines(content@),
            views(dns@) == spec_resolv_servers(lv.take(i as int)),
        decreases ls.len() - i,
    {
        assert(lv.take(i + 1).drop_last() =~= lv.take(i as int));
        assert(lv[i as int] == ls@[i as int]@);
        let ghost before = views(dns@);
        if starts_with(&ls[i], &lit("nameserver")) {
            let ws = words_chars(&ls[i]);
            if ws.len() >= 2 {
                let ghost wv = ws@.map_values(|v: Vec<char>| v@);
                assert(wv[1] == ws@[1]@);
                dns.push(string_of(&ws[1]));
                assert(views(dns@) =~= before + seq![wv[1]]);
            } else {
                assert(views(dns@) =~= before + Seq::<Seq<char>>::empty());
            }
        } else {
            assert(views(dns@) =~= before + Seq::<Seq<char>>::empty());
        }
        i += 1;
    }
    assert(lv.take(ls.len() as int) =~= lv);
    NetworkInterface { name: String::from_str("resolv.conf"), dns_servers: dns, is_active: true }
}

/// The active NetworkManager connections, as (name, device), from the
/// output of `nmcli -t -f NAME,DEVICE,TYPE,STATE connection show --active`.
pub fn parse_nm_connections(output: &str) -> (r: Vec<(String, String)>)
    ensures
        r@.map_values(|p: (String, String)| (p.0@, p.1@)) == spec_nm_connections(lines(output@)),
{
    let ls = lines_chars(&chars_of(output));
    let ghost lv = ls@.map_values(|v: Vec<char>| v@);
    let mut r: Vec<(String, String)> = Vec::new();
    let mut i: usize = 0;
    while i < ls.len()
        invariant
            i <= ls.len(),
            lv == ls@.map_values(|v: Vec<char>| v@),
            lv == lines(output@),
            r@.map_values(|p: (String, String)| (p.0@, p.1@)) == spec_nm_connections(
                lv.take(i as int),
            ),
        decreases ls.len() - i,
    {
        assert(lv.take(i + 1).drop_last() =~= lv.take(i as int));
        assert(lv[i as int] == ls@[i as int]@);
        let parts = split_chars(&ls[i], ':');
        let ghost pv = parts@.map_values(|v: Vec<char>| v@);
        let ghost before = r@.map_values(|p: (String, String)| (p.0@, p.1@));
        if parts.len() >= 4 {
            assert(pv[0] == parts@[0]@ && pv[1] == parts@[1]@);
            r.push((string_of(&parts[0]), string_of(&parts[1])));
            assert(r@.map_values(|p: (String, String)| (p.0@, p.1@)) =~= before + seq![
                (pv[0], pv[1]),
            ]);
        } else {
            assert(r@.map_values(|p: (String, String)| (p.0@, p.1@)) =~= before + Seq::<
                (Seq<char>, Seq<char>),
            >::empty());
        }
        i += 1;
    }
    assert(lv.take(ls.len() as int) =~= lv);
    r
}

/// The interface of a NetworkManager connection: named by its device, with
/// the servers read from the connection's `IP4.DNS` output (empty when
/// that query failed).
pub fn nm_interface(device: &str, dns_output: &str) -> (r: NetworkInterface)
    ensures
        r@ == (IfaceView { name: device@, dns: spec_nm_dns(lines(dns_output@)), active: true }),
{
    let ls = lines_chars(&chars_of(dns_output));
    let ghost lv = ls@.map_values(|v: Vec<char>| v@);
    let mut dns: Vec<String> = Vec::new();
    let mut i: usize = 0;
    while i < ls.len()
        invariant
            i <= ls.len(),
            lv == ls@.map_values(|v: Vec<char>| v@),
            lv == lines(dns_output@),
            views(dns@) == spec_nm_dns(lv.take(i as int)),
        decreases ls.len() - i,
    {
        assert(lv.take(i + 1).drop_last() =~= lv.take(i as int));
        assert(lv[i as int] == ls@[i as int]@);
        let parts = split_chars(&ls[i], ':');
        let ghost pv = parts@.map_values(|v: Vec<char>| v@);
        let ghost before = views(dns@);
        if parts.len() >= 2 {
            assert(pv[1] == parts@[1]@);
            let t = trim_chars(&parts[1]);
            if t.len() > 0 {
                dns.push(string_of(&t));
                assert(views(dns@) =~= before + seq![t@]);
            } else {
                assert(views(dns@) =~= before + Seq::<Seq<char>>::empty());
            }
        } else {
            assert(views(dns@) =~= before + Seq::<Seq<char>>::empty());
        }
        i += 1;
    }
    assert(lv.take(ls.len() as int) =~= lv);
    NetworkInterface { name: String::from_str(device), dns_servers: dns, is_active: true }
}

impl LinuxDnsManager {
    pub closed spec fn spec_method(&self) -> LinuxDnsMethod {
        self.method
    }

    /// A manager that uses systemd-resolved until a probe says otherwise.
    pub fn new() -> (r: Self)
        ensures
            r.spec_method() == LinuxDnsMethod::SystemdResolved,
    {
        LinuxDnsManager { method: LinuxDnsMethod::SystemdResolved }
    }

    pub fn method(&self) -> (r: LinuxDnsMethod)
        ensures
            r == self.spec_method(),
    {
        self.method
    }

    /// Picks the method from the probes: whether `resolvectl status`
    /// succeeded, and (asked only when it did not) whether `nmcli general
    /// status` did.
    pub fn detect_method(&mut self, resolvectl_ok: bool, nmcli_ok: bool)
        ensures
            final(self).spec_method() == spec_detected_method(resolvectl_ok, nmcli_ok),
    {
        self.method = if resolvectl_ok {
            LinuxDnsMethod::SystemdResolved
        } else if nmcli_ok {
            LinuxDnsMethod::NetworkManager
        } else {
            LinuxDnsMethod::ResolvConf
        };
    }

    /// The actions that point the system at `servers`, given the interfaces
    /// the method lists.
    fn set_actions(&self, interfaces: &Vec<NetworkInterface>, servers: &Vec<String>) -> (r: Vec<
        DnsAction,
    >)
        ensures
            action_views(r@) == spec_linux_set(
                self.spec_method(),
                iface_views(interfaces@),
                views(servers@),
            ),
    {
        let ghost iv = iface_views(interfaces@);
        let ghost sv = views(servers@);
        match self.method {
            LinuxDnsMethod::ResolvConf => {
                let mut r: Vec<DnsAction> = Vec::new();
                r.push(DnsAction::WriteResolvConf(resolv_conf_content(servers)));
                assert(action_views(r@) =~= spec_linux_set(self.method, iv, sv));
                r
            },
            LinuxDnsMethod::SystemdResolved => {
                let ghost f = systemd_set(sv);
                let mut r: Vec<DnsAction> = Vec::new();
                let mut i: usize = 0;
                assert(iv.take(0) =~= Seq::<IfaceView>::empty());
                while i < interfaces.len()
                    invariant
                        i <= interfaces.len(),
                        iv == iface_views(interfaces@),
                        sv == views(servers@),
                        f == systemd_set(sv),
                        action_views(r@) == per_iface(iv.take(i as int), f),
                    decreases interfaces.len() - i,
                {
                    proof {
                        lemma_per_iface_step(iv, f, i as int);
                    }
                    assert(iv[i as int] == interfaces@[i as int]@);
                    let mut args = strings(vec!["dns"]);
                    assert(views(args@) =~= seq!["dns"@]);
                    let n = interfaces[i].name.clone();
                    assert(n@ == iv[i as int].name);
                    push_string(&mut args, n);
                    assert(views(args@) =~= seq!["dns"@, iv[i as int].name]);
                    append_all(&mut args, servers);
                    assert(views(args@) =~= seq!["dns"@, iv[i as int].name] + sv);
                    let ghost before = action_views(r@);
                    r.push(DnsAction::Run(command("resolvectl", args)));
                    assert(action_views(r@) =~= before + f(iv[i as int]));
                    i += 1;
                }
                assert(iv.take(interfaces.len() as int) =~= iv);
                r
            },
            LinuxDnsMethod::NetworkManager => {
                let dns_str = join_strings(servers, " ");
                let ghost f = nm_set(dns_str@);
                let mut r: Vec<DnsAction> = Vec::new();
                let mut i: usize = 0;
                assert(iv.take(0) =~= Seq::<IfaceView>::empty());
                while i < interfaces.len()
                    invariant
                        i <= interfaces.len(),
                        iv == iface_views(interfaces@),
                        dns_str@ == spec_join(sv, " "@),
                        f == nm_set(dns_str@),
                        action_views(r@) == per_iface(iv.take(i as int), f),
                    decreases interfaces.len() - i,
                {
                    proof {
                        lemma_per_iface_step(iv, f, i as int);
                    }
                    assert(iv[i as int] == interfaces@[i as int]@);
                    let mut a1 = strings(vec!["connection", "modify"]);
                    assert(views(a1@) =~= seq!["connection"@, "modify"@]);
                    a1.push(interfaces[i].name.clone());
                    a1.push(String::from_str("ipv4.dns"));
                    a1.push(dns_str.clone());
                    a1.push(String::from_str("ipv4.ignore-auto-dns"));
                    a1.push(String::from_str("yes"));
                    assert(views(a1@) =~= seq!["connection"@, "modify"@, iv[i as int].name, "ipv4.dns"@, dns_str@, "ipv4.ignore-auto-dns"@, "yes"@]);
                    let mut a2 = strings(vec!["connection", "up"]);
                    assert(views(a2@) =~= seq!["connection"@, "up"@]);
                    a2.push(interfaces[i].name.clone());
                    assert(views(a2@) =~= seq!["connection"@, "up"@, iv[i as int].name]);
                    let ghost before = action_views(r@);
                    r.push(DnsAction::Run(command("nmcli", a1)));
                    r.push(DnsAction::Run(command("nmcli", a2)));
                    assert(action_views(r@) =~= before + f(iv[i as int]));
                    i += 1;
                }
                assert(iv.take(interfaces.len() as int) =~= iv);
                r
            },
        }
    }

    /// The actions that put the saved settings back.
    fn restore_actions(&self, backup: &DnsBackup) -> (r: Vec<DnsAction>)
        ensures
            action_views(r@) == spec_linux_restore(self.spec_method(), iface_views(backup.interfaces@)),
    {
        let ifs = &backup.interfaces;
        let ghost iv = iface_views(ifs@);
        match self.method {
            LinuxDnsMethod::ResolvConf => {
                let servers = if ifs.len() > 0 {
                    copy_strings(&ifs[0].dns_servers)
                } else {
                    Vec::new()
                };
                assert(views(servers@) =~= (if iv.len() > 0 {
                    iv[0].dns
                } else {
                    seq![]
                }));
                let mut r: Vec<DnsAction> = Vec::new();
                r.push(DnsAction::WriteResolvConf(resolv_conf_content(&servers)));
                assert(action_views(r@) =~= spec_linux_restore(self.method, iv));
                r
            },
            LinuxDnsMethod::SystemdResolved => {
                let ghost f = systemd_restore();
                let mut r: Vec<DnsAction> = Vec::new();
                let mut i: usize = 0;
                assert(iv.take(0) =~= Seq::<IfaceView>::empty());
                while i < ifs.len()
                    invariant
                        i <= ifs.len(),
                        iv == iface_views(ifs@),
                        f == systemd_restore(),
                        action_views(r@) == per_iface(iv.take(i as int), f),
                    decreases ifs.len() - i,
                {
                    proof {
                        lemma_per_iface_step(iv, f, i as int);
                    }
                    let iface = &ifs[i];
                    assert(iv[i as int] == ifs@[i as int]@);
                    let ghost before = action_views(r@);
                    if iface.dns_servers.len() == 0 {
                        let mut args = strings(vec!["revert"]);
                        assert(views(args@) =~= seq!["revert"@]);
                        let n = iface.name.clone();
                        assert(n@ == iv[i as int].name);
                        push_string(&mut args, n);
                        assert(views(args@) =~= seq!["revert"@, iv[i as int].name]);
                        r.push(DnsAction::Run(command("resolvectl", args)));
                    } else {
                        let mut args = strings(vec!["dns"]);
                        assert(views(args@) =~= seq!["dns"@]);
                        let n = iface.name.clone();
                        assert(n@ == iv[i as int].name);
                        push_string(&mut args, n);
                        assert(views(args@) =~= seq!["dns"@, iv[i as int].name]);
                        append_all(&mut args, &iface.dns_servers);
                        assert(views(args@) =~= seq!["dns"@, iv[i as int].name] + iv[i as int].dns);
                        r.push(DnsAction::Run(command("resolvectl", args)));
                    }
                    assert(action_views(r@) =~= before + f(iv[i as int]));
                    i += 1;
                }
                assert(iv.take(ifs.len() as int) =~= iv);
                r
            },
            LinuxDnsMethod::NetworkManager => {
                let ghost f = nm_restore();
                let mut r: Vec<DnsAction> = Vec::new();
                let mut i: usize = 0;
                assert(iv.take(0) =~= Seq::<IfaceView>::empty());
                while i < ifs.len()
                    invariant
                        i <= ifs.len(),
                        iv == iface_views(ifs@),
                        f == nm_restore(),
                        action_views(r@) == per_iface(iv.take(i as int), f),
                    decreases ifs.len() - i,
                {
                    proof {
                        lemma_per_iface_step(iv, f, i as int);
                    }
                    let iface = &ifs[i];
                    assert(iv[i as int] == ifs@[i as int]@);
                    let ghost before = action_views(r@);
                    let mut a1 = strings(vec!["connection", "modify"]);
                    assert(views(a1@) =~= seq!["connection"@, "modify"@]);
                    a1.push(iface.name.clone());
                    if iface.dns_servers.len() == 0 {
                        a1.push(String::from_str("ipv4.dns"));
                        a1.push(String::from_str(""));
                        a1.push(String::from_str("ipv4.ignore-auto-dns"));
                        a1.push(String::from_str("no"));
                        assert(views(a1@) =~= seq!["connection"@, "modify"@, iv[i as int].name, "ipv4.dns"@, ""@, "ipv4.ignore-auto-dns"@, "no"@]);
                    } else {
                        a1.push(String::from_str("ipv4.dns"));
                        a1.push(join_strings(&iface.dns_servers, " "));
                        assert(views(a1@) =~= seq!["connection"@, "modify"@, iv[i as int].name, "ipv4.dns"@, spec_join(iv[i as int].dns, " "@)]);
                    }
                    let mut a2 = strings(vec!["connection", "up"]);
                    assert(views(a2@) =~= seq!["connection"@, "up"@]);
                    a2.push(iface.name.clone());
                    assert(views(a2@) =~= seq!["connection"@, "up"@, iv[i as int].name]);
                    r.push(DnsAction::Run(command("nmcli", a1)));
                    r.push(DnsAction::Run(command("nmcli", a2)));
                    assert(action_views(r@) =~= before + f(iv[i as int]));
                    i += 1;
                }
                assert(iv.take(ifs.len() as int) =~= iv);
                r
            },
        }
    }
}


// ---------------------------------------------------------------------------
// The output of `resolvectl status`.
// ---------------------------------------------------------------------------

/// The interface name of a `Link` line: the text between its first `(` and
/// its first `)`, when it has both.
pub open spec fn link_name(t: Seq<char>) -> Option<Seq<char>> {
    let a = before_char(t, '(').len();
    let b = before_char(t, ')').len();
    if a < t.len() && b < t.len() {
        Some(t.subrange(a + 1 as int, b as int))
    } else {
        None
    }
}

/// A line that names a link with a `)` before its `(` cannot be read (the
/// name would be cut from a reversed range).
pub open spec fn readable_link(t: Seq<char>) -> bool {
    let a = before_char(t, '(').len();
    let b = before_char(t, ')').len();
    has_prefix(t, "Link"@) && a < t.len() && b < t.len() ==> a + 1 <= b
}

pub open spec fn readable_status_line(l: Seq<char>) -> bool {
    readable_link(trim(l))
}

pub open spec fn readable_status(output: Seq<char>) -> bool {
    forall|k: int| 0 <= k < lines(output).len() ==> readable_status_line(#[trigger] lines(output)[k])
}

/// What has been read so far: the finished interfaces, the link being read
/// and its servers.
pub ghost struct StatusRead {
    pub done: Seq<IfaceView>,
    pub name: Option<Seq<char>>,
    pub dns: Seq<Seq<char>>,
}

/// One line of the status: a `Link` line finishes the link being read and
/// starts the next; a `DNS Servers:` or `Current DNS Server:` line adds the
/// text after its first `:` (up to the next), trimmed, when not empty.
pub open spec fn status_step(st: StatusRead, l: Seq<char>) -> StatusRead {
    let t = trim(l);
    if has_prefix(t, "Link"@) {
        StatusRead {
            done: match st.name {
                Some(n) => st.done.push(IfaceView { name: n, dns: st.dns, active: true }),
                None => st.done,
            },
            name: link_name(t),
            dns: match st.name {
                Some(n) => seq![],
                None => st.dns,
            },
        }
    } else if has_prefix(t, "DNS Servers:"@) || has_prefix(t, "Current DNS Server:"@) {
        let pieces = split(t, ':');
        if pieces.len() >= 2 && trim(pieces[1]).len() > 0 {
            StatusRead { dns: st.dns.push(trim(pieces[1])), ..st }
        } else {
            st
        }
    } else {
        st
    }
}

pub open spec fn status_fold(ls: Seq<Seq<char>>) -> StatusRead
    decreases ls.len(),
{
    if ls.len() == 0 {
        StatusRead { done: seq![], name: None, dns: seq![] }
    } else {
        status_step(status_fold(ls.drop_last()), ls.last())
    }
}

/// The interfaces `resolvectl status` lists, with their DNS servers.
pub open spec fn spec_status_interfaces(output: Seq<char>) -> Seq<IfaceView> {
    let st = status_fold(lines(output));
    match st.name {
        Some(n) => st.done.push(IfaceView { name: n, dns: st.dns, active: true }),
        None => st.done,
    }
}

fn link_name_of(t: &Vec<char>) -> (r: Option<Vec<char>>)
    requires
        readable_link(t@),
        has_prefix(t@, "Link"@),
    ensures
        match r {
            Some(v) => link_name(t@) == Some(v@),
            None => link_name(t@) is None,
        },
{
    let a = before_char_chars(t, '(');
    let b = before_char_chars(t, ')');
    proof {
        crate::packet::lemma_before_char_len(t@, '(');
        crate::packet::lemma_before_char_len(t@, ')');
    }
    if a.len() < t.len() && b.len() < t.len() {
        Some(slice_chars(t, a.len() + 1, b.len()))
    } else {
        None
    }
}

/// Whether every `Link` line of the output can be read.
pub fn status_readable(output: &str) -> (r: bool)
    ensures
        r == readable_status(output@),
{
    let ls = lines_chars(&chars_of(output));
    let ghost lv = ls@.map_values(|v: Vec<char>| v@);
    let mut i: usize = 0;
    while i < ls.len()
        invariant
            i <= ls.len(),
            lv == ls@.map_values(|v: Vec<char>| v@),
            lv == lines(output@),
            forall|k: int| 0 <= k < i ==> readable_status_line(#[trigger] lv[k]),
        decreases ls.len() - i,
    {
        assert(lv[i as int] == ls@[i as int]@);
        let t = trim_chars(&ls[i]);
        let a = before_char_chars(&t, '(');
        let b = before_char_chars(&t, ')');
        if starts_with(&t, &lit("Link")) && a.len() < t.len() && b.len() < t.len() && a.len() + 1
            > b.len() {
            assert(!readable_status_line(lv[i as int]));
            return false;
        }
        i += 1;
    }
    true
}

/// Reads the interfaces and their DNS servers from `resolvectl status`.
pub fn parse_resolvectl_status(output: &str) -> (r: Vec<NetworkInterface>)
    requires
        readable_status(output@),
    ensures
        iface_views(r@) == spec_status_interfaces(output@),
{
    let ls = lines_chars(&chars_of(output));
    let ghost lv = ls@.map_values(|v: Vec<char>| v@);
    let mut done: Vec<NetworkInterface> = Vec::new();
    let mut name: Option<Vec<char>> = None;
    let mut dns: Vec<String> = Vec::new();
    let mut i: usize = 0;
    assert(lv.take(0) =~= Seq::<Seq<char>>::empty());
    while i < ls.len()
        invariant
            i <= ls.len(),
            lv == ls@.map_values(|v: Vec<char>| v@),
            lv == lines(output@),
            readable_status(output@),
            ({
                let st = status_fold(lv.take(i as int));
                &&& iface_views(done@) == st.done
                &&& match name {
                    Some(n) => st.name == Some(n@),
                    None => st.name is None,
                }
                &&& views(dns@) == st.dns
            }),
        decreases ls.len() - i,
    {
        assert(lv.take(i + 1).drop_last() =~= lv.take(i as int));
        assert(lv[i as int] == ls@[i as int]@);
        assert(readable_status_line(lv[i as int]));
        let t = trim_chars(&ls[i]);
        if starts_with(&t, &lit("Link")) {
            match name {
                Some(n) => {
                    let ghost before = iface_views(done@);
                    let iface = NetworkInterface { name: string_of(&n), dns_servers: dns, is_active: true };
                    done.push(iface);
                    assert(iface_views(done@) =~= before.push(iface@));
                    dns = Vec::new();
                    assert(views(dns@) =~= Seq::<Seq<char>>::empty());
                },
                None => {},
            }
            name = link_name_of(&t);
        } else if starts_with(&t, &lit("DNS Servers:")) || starts_with(&t, &lit("Current DNS Server:")) {
            let pieces = split_chars(&t, ':');
            let ghost pv = pieces@.map_values(|v: Vec<char>| v@);
            if pieces.len() >= 2 {
                assert(pv[1] == pieces@[1]@);
                let a = trim_chars(&pieces[1]);
                if a.len() > 0 {
                    let ghost before = views(dns@);
                    dns.push(string_of(&a));
                    assert(views(dns@) =~= before.push(a@));
                }
            }
        }
        i += 1;
    }
    assert(lv.take(ls.len() as int) =~= lv);
    match name {
        Some(n) => {
            let ghost before = iface_views(done@);
            let iface = NetworkInterface { name: string_of(&n), dns_servers: dns, is_active: true };
            done.push(iface);
            assert(iface_views(done@) =~= before.push(iface@));
        },
        None => {},
    }
    done
}


// ---------------------------------------------------------------------------
// Helpers shared by the readers below.
// ---------------------------------------------------------------------------

/// The pieces, trimmed, that are not empty once trimmed.
pub open spec fn trimmed_nonempty(ps: Seq<Seq<char>>) -> Seq<Seq<char>>
    decreases ps.len(),
{
    if ps.len() == 0 {
        seq![]
    } else {
        trimmed_nonempty(ps.drop_last()) + if trim(ps.last()).len() > 0 {
            seq![trim(ps.last())]
        } else {
            seq![]
        }
    }
}

fn trimmed_nonempty_of(ps: &Vec<Vec<char>>) -> (r: Vec<String>)
    ensures
        views(r@) == trimmed_nonempty(ps@.map_values(|v: Vec<char>| v@)),
{
    let ghost pv = ps@.map_values(|v: Vec<char>| v@);
    let mut r: Vec<String> = Vec::new();
    let mut i: usize = 0;
    while i < ps.len()
        invariant
            i <= ps.len(),
            pv == ps@.map_values(|v: Vec<char>| v@),
            views(r@) == trimmed_nonempty(pv.take(i as int)),
        decreases ps.len() - i,
    {
        assert(pv.take(i + 1).drop_last() =~= pv.take(i as int));
        assert(pv[i as int] == ps@[i as int]@);
        let t = trim_chars(&ps[i]);
        let ghost before = views(r@);
        if t.len() > 0 {
            r.push(string_of(&t));
            assert(views(r@) =~= before + seq![t@]);
        } else {
            assert(views(r@) =~= before + Seq::<Seq<char>>::empty());
        }
        i += 1;
    }
    assert(pv.take(ps.len() as int) =~= pv);
    r
}

// ---------------------------------------------------------------------------
// macOS.
// ---------------------------------------------------------------------------

/// Changes DNS settings with `networksetup`.
#[derive(Debug)]
pub struct MacOsDnsManager;

impl MacOsDnsManager {
    pub fn new() -> (r: Self) {
        MacOsDnsManager
    }
}

/// The network services of `networksetup -listallnetworkservices`: every
/// line after the first, trimmed, that is not empty and is not marked
/// disabled with `*`.
pub open spec fn spec_services(ls: Seq<Seq<char>>) -> Seq<Seq<char>>
    decreases ls.len(),
{
    if ls.len() == 0 {
        seq![]
    } else {
        let t = trim(ls.last());
        spec_services(ls.drop_last()) + if t.len() > 0 && !has_prefix(t, "*"@) {
            seq![t]
        } else {
            seq![]
        }
    }
}

pub open spec fn spec_network_services(output: Seq<char>) -> Seq<Seq<char>> {
    let ls = lines(output);
    if ls.len() == 0 {
        seq![]
    } else {
        spec_services(ls.drop_first())
    }
}

pub fn parse_network_services(output: &str) -> (r: Vec<String>)
    ensures
        views(r@) == spec_network_services(output@),
{
    let ls = lines_chars(&chars_of(output));
    let ghost lv = ls@.map_values(|v: Vec<char>| v@);
    let mut r: Vec<String> = Vec::new();
    if ls.len() == 0 {
        assert(views(r@) =~= Seq::<Seq<char>>::empty());
        return r;
    }
    let ghost rest = lv.drop_first();
    let mut i: usize = 1;
    assert(rest.take(0) =~= Seq::<Seq<char>>::empty());
    while i < ls.len()
        invariant
            1 <= i <= ls.len(),
            lv == ls@.map_values(|v: Vec<char>| v@),
            lv == lines(output@),
            rest == lv.drop_first(),
            views(r@) == spec_services(rest.take(i - 1)),
        decreases ls.len() - i,
    {
        assert(rest.take(i as int).drop_last() =~= rest.take(i - 1));
        assert(rest[i - 1] == ls@[i as int]@);
        let t = trim_chars(&ls[i]);
        let ghost before = views(r@);
        if t.len() > 0 && !starts_with(&t, &lit("*")) {
            r.push(string_of(&t));
            assert(views(r@) =~= before + seq![t@]);
        } else {
            assert(views(r@) =~= before + Seq::<Seq<char>>::empty());
        }
        i += 1;
    }
    assert(rest.take(ls.len() - 1) =~= rest);
    r
}

/// The servers of `networksetup -getdnsservers NAME`: none when it says
/// there are none, else its non-empty lines, trimmed.
pub open spec fn spec_mac_dns(output: Seq<char>) -> Seq<Seq<char>> {
    if has_infix(output, "There aren't any DNS Servers"@) {
        seq![]
    } else {
        trimmed_nonempty(lines(output))
    }
}

/// Whether `networksetup -getinfo NAME` shows an IP address.
pub open spec fn spec_mac_active(info: Seq<char>) -> bool {
    has_infix(info, "IP address:"@) && !has_infix(info, "IP address: none"@)
}

/// The interface of a network service, when it is active: its name and the
/// servers of its `-getdnsservers` output.
pub fn mac_interface(name: &str, dns_output: &str, info_output: &str) -> (r: Option<NetworkInterface>)
    ensures
        match r {
            Some(i) => spec_mac_active(info_output@) && i@ == (IfaceView {
                name: name@,
                dns: spec_mac_dns(dns_output@),
                active: true,
            }),
            None => !spec_mac_active(info_output@),
        },
{
    let info = chars_of(info_output);
    if !(contains_chars(&info, &lit("IP address:")) && !contains_chars(&info, &lit("IP address: none"))) {
        return None;
    }
    let out = chars_of(dns_output);
    let dns = if contains_chars(&out, &lit("There aren't any DNS Servers")) {
        let v: Vec<String> = Vec::new();
        assert(views(v@) =~= Seq::<Seq<char>>::empty());
        v
    } else {
        trimmed_nonempty_of(&lines_chars(&out))
    };
    Some(NetworkInterface { name: String::from_str(name), dns_servers: dns, is_active: true })
}

pub open spec fn mac_set(servers: Seq<Seq<char>>) -> spec_fn(IfaceView) -> Seq<ActionView> {
    |i: IfaceView| seq![run("networksetup"@, seq!["-setdnsservers"@, i.name] + servers)]
}

pub open spec fn mac_restore() -> spec_fn(IfaceView) -> Seq<ActionView> {
    |i: IfaceView|
        if i.dns.len() == 0 {
            seq![run("networksetup"@, seq!["-setdnsservers"@, i.name, "empty"@])]
        } else {
            seq![run("networksetup"@, seq!["-setdnsservers"@, i.name] + i.dns)]
        }
}

// ---------------------------------------------------------------------------
// Windows.
// ---------------------------------------------------------------------------

/// Changes DNS settings with PowerShell.
#[derive(Debug)]
pub struct WindowsDnsManager;

impl WindowsDnsManager {
    pub fn new() -> (r: Self) {
        WindowsDnsManager
    }
}

/// The PowerShell script that lists the adapters that are up, one
/// `NAME|SERVER,SERVER` line each (IPv4 servers).
pub open spec fn spec_adapters_script() -> Seq<char> {
    "Get-NetAdapter | Where-Object { $_.Status -eq 'Up' } | ForEach-Object { $dns = (Get-DnsClientServerAddress -InterfaceIndex $_.ifIndex -AddressFamily IPv4).ServerAddresses -join ','; \"$($_.Name)|$dns\" }"@
}

/// The command that runs that script.
pub fn windows_adapters_command() -> (r: Command)
    ensures
        r@ == (CommandView {
            program: "powershell"@,
            args: seq!["-NoProfile"@, "-Command"@, spec_adapters_script()],
        }),
{
    let args = strings(vec![
        "-NoProfile",
        "-Command",
        "Get-NetAdapter | Where-Object { $_.Status -eq 'Up' } | ForEach-Object { $dns = (Get-DnsClientServerAddress -InterfaceIndex $_.ifIndex -AddressFamily IPv4).ServerAddresses -join ','; \"$($_.Name)|$dns\" }",
    ]);
    assert(views(args@) =~= seq!["-NoProfile"@, "-Command"@, spec_adapters_script()]);
    command("powershell", args)
}

/// The adapters of that listing: of each non-empty trimmed line with a
/// `|`, the name before it and the servers after it, split at commas,
/// trimmed, non-empty.
pub open spec fn spec_adapters(ls: Seq<Seq<char>>) -> Seq<IfaceView>
    decreases ls.len(),
{
    if ls.len() == 0 {
        seq![]
    } else {
        let t = trim(ls.last());
        let n = before_char(t, '|');
        spec_adapters(ls.drop_last()) + if t.len() > 0 && t.contains('|') {
            seq![
                IfaceView {
                    name: n,
                    dns: trimmed_nonempty(split(t.skip(n.len() + 1int), ',')),
                    active: true,
                },
            ]
        } else {
            seq![]
        }
    }
}

pub fn parse_adapters(output: &str) -> (r: Vec<NetworkInterface>)
    ensures
        iface_views(r@) == spec_adapters(lines(output@)),
{
    let ls = lines_chars(&chars_of(output));
    let ghost lv = ls@.map_values(|v: Vec<char>| v@);
    let mut r: Vec<NetworkInterface> = Vec::new();
    let mut i: usize = 0;
    while i < ls.len()
        invariant
            i <= ls.len(),
            lv == ls@.map_values(|v: Vec<char>| v@),
            lv == lines(output@),
            iface_views(r@) == spec_adapters(lv.take(i as int)),
        decreases ls.len() - i,
    {
        assert(lv.take(i + 1).drop_last() =~= lv.take(i as int));
        assert(lv[i as int] == ls@[i as int]@);
        let t = trim_chars(&ls[i]);
        let ghost before = iface_views(r@);
        if t.len() > 0 && crate::text::contains_char(&t, '|') {
            let n = before_char_chars(&t, '|');
            proof {
                crate::packet::lemma_before_char_len(t@, '|');
            }
            let rest = slice_chars(&t, n.len() + 1, t.len());
            assert(rest@ =~= t@.skip(n@.len() + 1int));
            let dns = trimmed_nonempty_of(&split_chars(&rest, ','));
            let iface = NetworkInterface { name: string_of(&n), dns_servers: dns, is_active: true };
            r.push(iface);
            assert(iface_views(r@) =~= before + seq![iface@]);
        } else {
            assert(iface_views(r@) =~= before + Seq::<IfaceView>::empty());
        }
        i += 1;
    }
    assert(lv.take(ls.len() as int) =~= lv);
    r
}

/// The script that gives an adapter a list of servers.
pub open spec fn spec_set_script(name: Seq<char>, servers: Seq<Seq<char>>) -> Seq<char> {
    "Set-DnsClientServerAddress -InterfaceAlias '"@ + name + "' -ServerAddresses ('"@ + spec_join(
        servers,
        "','"@,
    ) + "')"@
}

/// The script that gives an adapter back the servers it learns by itself.
pub open spec fn spec_reset_script(name: Seq<char>) -> Seq<char> {
    "Set-DnsClientServerAddress -InterfaceAlias '"@ + name + "' -ResetServerAddresses"@
}

pub open spec fn powershell(script: Seq<char>) -> ActionView {
    run("powershell"@, seq!["-NoProfile"@, "-Command"@, script])
}

pub open spec fn win_set(servers: Seq<Seq<char>>) -> spec_fn(IfaceView) -> Seq<ActionView> {
    |i: IfaceView| seq![powershell(spec_set_script(i.name, servers))]
}

pub open spec fn win_restore() -> spec_fn(IfaceView) -> Seq<ActionView> {
    |i: IfaceView|
        if i.dns.len() == 0 {
            seq![powershell(spec_reset_script(i.name))]
        } else {
            seq![powershell(spec_set_script(i.name, i.dns))]
        }
}

fn set_script(name: &String, servers: &Vec<String>) -> (r: String)
    ensures
        r@ == spec_set_script(name@, views(servers@)),
{
    let mut s = String::from_str("Set-DnsClientServerAddress -InterfaceAlias '");
    s.append(name.as_str());
    s.append("' -ServerAddresses ('");
    s.append(join_strings(servers, "','").as_str());
    s.append("')");
    s
}

fn reset_script(name: &String) -> (r: String)
    ensures
        r@ == spec_reset_script(name@),
{
    let mut s = String::from_str("Set-DnsClientServerAddress -InterfaceAlias '");
    s.append(name.as_str());
    s.append("' -ResetServerAddresses");
    s
}

fn powershell_action(script: String) -> (r: DnsAction)
    ensures
        action_views(seq![r]) == seq![powershell(script@)],
{
    let mut args = strings(vec!["-NoProfile", "-Command"]);
    assert(views(args@) =~= seq!["-NoProfile"@, "-Command"@]);
    let ghost sv = script@;
    push_string(&mut args, script);
    assert(views(args@) =~= seq!["-NoProfile"@, "-Command"@, sv]);
    let c = command("powershell", args);
    assert(c@ == CommandView { program: "powershell"@, args: seq!["-NoProfile"@, "-Command"@, sv] });
    let r = DnsAction::Run(c);
    assert(action_views(seq![r])[0] == powershell(sv));
    assert(action_views(seq![r]) =~= seq![powershell(sv)]);
    r
}

// ---------------------------------------------------------------------------
// The managers.
// ---------------------------------------------------------------------------

/// Plans changes of the system's DNS settings.
pub trait DnsManager {
    /// The actions that point the listed interfaces at `servers`.
    fn set_dns_plan(&self, interfaces: &Vec<NetworkInterface>, servers: &Vec<String>) -> Result<
        Vec<DnsAction>,
        PlatformError,
    >;

    /// The actions that put saved settings back.
    fn restore_dns_plan(&self, backup: &DnsBackup) -> Vec<DnsAction>;
}

pub open spec fn plan_is(
    r: Result<Vec<DnsAction>, PlatformError>,
    ifaces: Seq<IfaceView>,
    plan: Seq<ActionView>,
    needs_interface: bool,
) -> bool {
    if needs_interface && ifaces.len() == 0 {
        r matches Err(e) && e is NoInterface
    } else {
        r matches Ok(p) && action_views(p@) == plan
    }
}

/// Runs `f` over the interfaces; shared by the per-interface plans below.
fn plan_each(
    interfaces: &Vec<NetworkInterface>,
    servers: &Vec<String>,
    kind: u8,
) -> (r: Vec<DnsAction>)
    requires
        kind < 4,
    ensures
        action_views(r@) == per_iface(
            iface_views(interfaces@),
            if kind == 0 {
                mac_set(views(servers@))
            } else if kind == 1 {
                mac_restore()
            } else if kind == 2 {
                win_set(views(servers@))
            } else {
                win_restore()
            },
        ),
{
    let ghost iv = iface_views(interfaces@);
    let ghost sv = views(servers@);
    let ghost f = if kind == 0 {
        mac_set(sv)
    } else if kind == 1 {
        mac_restore()
    } else if kind == 2 {
        win_set(sv)
    } else {
        win_restore()
    };
    let mut r: Vec<DnsAction> = Vec::new();
    let mut i: usize = 0;
    assert(iv.take(0) =~= Seq::<IfaceView>::empty());
    while i < interfaces.len()
        invariant
            i <= interfaces.len(),
            kind < 4,
            iv == iface_views(interfaces@),
            sv == views(servers@),
            f == (if kind == 0 {
                mac_set(sv)
            } else if kind == 1 {
                mac_restore()
            } else if kind == 2 {
                win_set(sv)
            } else {
                win_restore()
            }),
            action_views(r@) == per_iface(iv.take(i as int), f),
        decreases interfaces.len() - i,
    {
        proof {
            lemma_per_iface_step(iv, f, i as int);
        }
        let iface = &interfaces[i];
        assert(iv[i as int] == interfaces@[i as int]@);
        let ghost before = action_views(r@);
        if kind < 2 {
            let mut args = strings(vec!["-setdnsservers"]);
            assert(views(args@) =~= seq!["-setdnsservers"@]);
            push_string(&mut args, iface.name.clone());
            assert(views(args@) =~= seq!["-setdnsservers"@, iv[i as int].name]);
            if kind == 0 {
                append_all(&mut args, servers);
            } else if iface.dns_servers.len() == 0 {
                push_string(&mut args, String::from_str("empty"));
                assert(views(args@) =~= seq!["-setdnsservers"@, iv[i as int].name, "empty"@]);
            } else {
                append_all(&mut args, &iface.dns_servers);
            }
            let c = command("networksetup", args);
            let a = DnsAction::Run(c);
            assert(action_views(seq![a]) =~= f(iv[i as int]));
            r.push(a);
            assert(action_views(r@) =~= before + action_views(seq![a]));
        } else {
            let script = if kind == 2 {
                set_script(&iface.name, servers)
            } else if iface.dns_servers.len() == 0 {
                reset_script(&iface.name)
            } else {
                set_script(&iface.name, &iface.dns_servers)
            };
            let a = powershell_action(script);
            assert(action_views(seq![a]) =~= f(iv[i as int]));
            r.push(a);
            assert(action_views(r@) =~= before + action_views(seq![a]));
        }
        assert(action_views(r@) =~= before + f(iv[i as int]));
        i += 1;
    }
    assert(iv.take(interfaces.len() as int) =~= iv);
    r
}

impl DnsManager for LinuxDnsManager {
    fn set_dns_plan(&self, interfaces: &Vec<NetworkInterface>, servers: &Vec<String>) -> (r: Result<
        Vec<DnsAction>,
        PlatformError,
    >)
        ensures
            plan_is(
                r,
                iface_views(interfaces@),
                spec_linux_set(self.spec_method(), iface_views(interfaces@), views(servers@)),
                false,
            ),
    {
        Ok(self.set_actions(interfaces, servers))
    }

    fn restore_dns_plan(&self, backup: &DnsBackup) -> (r: Vec<DnsAction>)
        ensures
            action_views(r@) == spec_linux_restore(self.spec_method(), iface_views(backup.interfaces@)),
    {
        self.restore_actions(backup)
    }
}

impl DnsManager for MacOsDnsManager {
    /// Refused when no interface is active.
    fn set_dns_plan(&self, interfaces: &Vec<NetworkInterface>, servers: &Vec<String>) -> (r: Result<
        Vec<DnsAction>,
        PlatformError,
    >)
        ensures
            plan_is(
                r,
                iface_views(interfaces@),
                per_iface(iface_views(interfaces@), mac_set(views(servers@))),
                true,
            ),
    {
        if interfaces.len() == 0 {
            return Err(PlatformError::NoInterface);
        }
        Ok(plan_each(interfaces, servers, 0))
    }

    fn restore_dns_plan(&self, backup: &DnsBackup) -> (r: Vec<DnsAction>)
        ensures
            action_views(r@) == per_iface(iface_views(backup.interfaces@), mac_restore()),
    {
        plan_each(&backup.interfaces, &Vec::new(), 1)
    }
}

impl DnsManager for WindowsDnsManager {
    /// Refused when no adapter is up.
    fn set_dns_plan(&self, interfaces: &Vec<NetworkInterface>, servers: &Vec<String>) -> (r: Result<
        Vec<DnsAction>,
        PlatformError,
    >)
        ensures
            plan_is(
                r,
                iface_views(interfaces@),
                per_iface(iface_views(interfaces@), win_set(views(servers@))),
                true,
            ),
    {
        if interfaces.len() == 0 {
            return Err(PlatformError::NoInterface);
        }
        Ok(plan_each(interfaces, servers, 2))
    }

    fn restore_dns_plan(&self, backup: &DnsBackup) -> (r: Vec<DnsAction>)
        ensures
            action_views(r@) == per_iface(iface_views(backup.interfaces@), win_restore()),
    {
        plan_each(&backup.interfaces, &Vec::new(), 3)
    }
}

/// The DNS manager of the system the program runs on.
#[derive(Debug)]
pub enum SystemDnsManager {
    Linux(LinuxDnsManager),
    MacOs(MacOsDnsManager),
    Windows(WindowsDnsManager),
}

/// The manager for a target operating system, named as Rust names it
/// (`std::env::consts::OS`): Windows, macOS or Linux; refused for any other.
pub fn get_dns_manager(os: &str) -> (r: Result<SystemDnsManager, PlatformError>)
    ensures
        os@ == "windows"@ <==> r matches Ok(SystemDnsManager::Windows(_)),
        os@ == "macos"@ <==> r matches Ok(SystemDnsManager::MacOs(_)),
        os@ == "linux"@ <==> (r matches Ok(SystemDnsManager::Linux(m)) && m.spec_method()
            == LinuxDnsMethod::SystemdResolved),
        r is Err <==> !(os@ == "windows"@ || os@ == "macos"@ || os@ == "linux"@),
        r matches Err(e) ==> e is Unsupported,
{
    let o = chars_of(os);
    proof {
        reveal_strlit("windows");
        reveal_strlit("macos");
        reveal_strlit("linux");
        assert("windows"@.len() == 7 && "macos"@.len() == 5 && "linux"@.len() == 5);
        assert("macos"@[0] != "linux"@[0]);
    }
    if crate::text::eq_chars(&o, &lit("windows")) {
        Ok(SystemDnsManager::Windows(WindowsDnsManager::new()))
    } else if crate::text::eq_chars(&o, &lit("macos")) {
        Ok(SystemDnsManager::MacOs(MacOsDnsManager::new()))
    } else if crate::text::eq_chars(&o, &lit("linux")) {
        Ok(SystemDnsManager::Linux(LinuxDnsManager::new()))
    } else {
        Err(PlatformError::Unsupported)
    }
}

} // verus!
