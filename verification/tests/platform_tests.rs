use freeix::platform::{
    get_dns_manager, mac_interface, nm_interface, parse_adapters, parse_network_services, parse_nm_connections,
    parse_resolv_conf, parse_resolvectl_status, resolv_conf_content, status_readable, windows_adapters_command,
    DnsAction, DnsBackup, DnsManager, LinuxDnsManager, LinuxDnsMethod, MacOsDnsManager, NetworkInterface,
    PlatformError, SystemDnsManager, WindowsDnsManager,
};

fn iface(name: &str, dns: &[&str]) -> NetworkInterface {
    NetworkInterface { name: name.to_string(), dns_servers: dns.iter().map(|s| s.to_string()).collect(), is_active: true }
}

fn commands(plan: &[DnsAction]) -> Vec<String> {
    plan.iter()
        .map(|a| match a {
            DnsAction::Run(c) => format!("{} {}", c.program, c.args.join(" ")),
            DnsAction::WriteResolvConf(t) => format!("write {}", t),
        })
        .collect()
}

#[test]
fn resolvectl_status_is_read() {
    let out = "Global\n  Protocols: +LLMNR\nLink 2 (eth0)\n    Current DNS Server: 192.168.1.1\n         DNS Servers: 192.168.1.1\nLink 3 (wlan0)\nLink 4 (tun0)\n  DNS Servers: 10.0.0.1\n";
    assert!(status_readable(out));
    let ifs = parse_resolvectl_status(out);
    assert_eq!(ifs.len(), 3);
    assert_eq!(ifs[0].name, "eth0");
    assert_eq!(ifs[0].dns_servers, vec!["192.168.1.1", "192.168.1.1"]);
    assert_eq!(ifs[1].name, "wlan0");
    assert!(ifs[1].dns_servers.is_empty());
    assert_eq!(ifs[2].dns_servers, vec!["10.0.0.1"]);
    assert!(!status_readable("Link )x( odd\n"));
}

#[test]
fn resolv_conf_round_trip() {
    let i = parse_resolv_conf("# managed by resolvconf\nnameserver 1.1.1.1\nnameserver\nsearch lan\nnameserver 9.9.9.9 extra\n");
    assert_eq!(i.name, "resolv.conf");
    assert_eq!(i.dns_servers, vec!["1.1.1.1", "9.9.9.9"]);
    assert_eq!(resolv_conf_content(&vec!["127.0.0.1".to_string(), "::1".to_string()]), "nameserver 127.0.0.1\nnameserver ::1\n");
    assert_eq!(resolv_conf_content(&vec![]), "\n");
}

#[test]
fn network_manager_output() {
    let conns = parse_nm_connections("Wired:eth0:802-3-ethernet:activated\nbroken:line\nWifi:wlan0:wifi:activated\n");
    assert_eq!(conns, vec![("Wired".to_string(), "eth0".to_string()), ("Wifi".to_string(), "wlan0".to_string())]);
    let i = nm_interface("eth0", "IP4.DNS[1]:8.8.8.8\nIP4.DNS[2]: 1.1.1.1 \nnothing\n");
    assert_eq!(i.name, "eth0");
    assert_eq!(i.dns_servers, vec!["8.8.8.8", "1.1.1.1"]);
    assert!(nm_interface("eth0", "").dns_servers.is_empty());
}

#[test]
fn linux_plans() {
    let mut m = LinuxDnsManager::new();
    assert_eq!(m.method(), LinuxDnsMethod::SystemdResolved);
    let ifs = vec![iface("eth0", &[])];
    let servers = vec!["127.0.0.1".to_string()];
    assert_eq!(commands(&m.set_dns_plan(&ifs, &servers).unwrap()), vec!["resolvectl dns eth0 127.0.0.1"]);
    let backup = DnsBackup { interfaces: vec![iface("eth0", &[]), iface("wlan0", &["1.1.1.1", "8.8.8.8"])] };
    assert_eq!(commands(&m.restore_dns_plan(&backup)), vec!["resolvectl revert eth0", "resolvectl dns wlan0 1.1.1.1 8.8.8.8"]);

    m.detect_method(false, true);
    assert_eq!(m.method(), LinuxDnsMethod::NetworkManager);
    let two = vec!["127.0.0.1".to_string(), "::1".to_string()];
    assert_eq!(
        commands(&m.set_dns_plan(&ifs, &two).unwrap()),
        vec!["nmcli connection modify eth0 ipv4.dns 127.0.0.1 ::1 ipv4.ignore-auto-dns yes", "nmcli connection up eth0"]
    );
    assert_eq!(
        commands(&m.restore_dns_plan(&backup)),
        vec![
            "nmcli connection modify eth0 ipv4.dns  ipv4.ignore-auto-dns no",
            "nmcli connection up eth0",
            "nmcli connection modify wlan0 ipv4.dns 1.1.1.1 8.8.8.8",
            "nmcli connection up wlan0",
        ]
    );

    m.detect_method(false, false);
    assert_eq!(m.method(), LinuxDnsMethod::ResolvConf);
    assert_eq!(commands(&m.set_dns_plan(&vec![], &servers).unwrap()), vec!["write nameserver 127.0.0.1\n"]);
    assert_eq!(commands(&m.restore_dns_plan(&backup)), vec!["write \n"]);
    m.detect_method(true, true);
    assert_eq!(m.method(), LinuxDnsMethod::SystemdResolved);
}

#[test]
fn macos_output_and_plans() {
    let services = parse_network_services("An asterisk (*) denotes that a network service is disabled.\nWi-Fi\n*Bluetooth PAN\n\n  Ethernet  \n");
    assert_eq!(services, vec!["Wi-Fi", "Ethernet"]);
    let wifi = mac_interface("Wi-Fi", "1.1.1.1\n8.8.8.8\n", "DHCP Configuration\nIP address: 192.168.1.5\n").unwrap();
    assert_eq!(wifi.dns_servers, vec!["1.1.1.1", "8.8.8.8"]);
    let none = mac_interface("Eth", "There aren't any DNS Servers set on Ethernet.\n", "IP address: 10.0.0.2\n").unwrap();
    assert!(none.dns_servers.is_empty());
    assert!(mac_interface("Eth", "1.1.1.1", "IP address: none\n").is_none());
    assert!(mac_interface("Eth", "1.1.1.1", "no address\n").is_none());

    let m = MacOsDnsManager::new();
    let servers = vec!["127.0.0.1".to_string()];
    assert!(matches!(m.set_dns_plan(&vec![], &servers), Err(PlatformError::NoInterface)));
    assert_eq!(commands(&m.set_dns_plan(&vec![wifi], &servers).unwrap()), vec!["networksetup -setdnsservers Wi-Fi 127.0.0.1"]);
    let backup = DnsBackup { interfaces: vec![iface("Wi-Fi", &[]), iface("Ethernet", &["9.9.9.9"])] };
    assert_eq!(
        commands(&m.restore_dns_plan(&backup)),
        vec!["networksetup -setdnsservers Wi-Fi empty", "networksetup -setdnsservers Ethernet 9.9.9.9"]
    );
}

#[test]
fn windows_output_and_plans() {
    let ifs = parse_adapters("Ethernet|192.168.1.1, 8.8.8.8\n\nWi-Fi|\nnot an adapter\nVPN|a|b\n");
    assert_eq!(ifs.len(), 3);
    assert_eq!(ifs[0].name, "Ethernet");
    assert_eq!(ifs[0].dns_servers, vec!["192.168.1.1", "8.8.8.8"]);
    assert!(ifs[1].dns_servers.is_empty());
    assert_eq!(ifs[2].dns_servers, vec!["a|b"]);
    assert_eq!(windows_adapters_command().program, "powershell");

    let m = WindowsDnsManager::new();
    let servers = vec!["127.0.0.1".to_string(), "::1".to_string()];
    assert!(matches!(m.set_dns_plan(&vec![], &servers), Err(PlatformError::NoInterface)));
    let plan = m.set_dns_plan(&vec![iface("Ethernet", &[])], &servers).unwrap();
    assert_eq!(
        commands(&plan),
        vec!["powershell -NoProfile -Command Set-DnsClientServerAddress -InterfaceAlias 'Ethernet' -ServerAddresses ('127.0.0.1','::1')"]
    );
    let backup = DnsBackup { interfaces: vec![iface("Ethernet", &[]), iface("Wi-Fi", &["1.1.1.1"])] };
    assert_eq!(
        commands(&m.restore_dns_plan(&backup)),
        vec![
            "powershell -NoProfile -Command Set-DnsClientServerAddress -InterfaceAlias 'Ethernet' -ResetServerAddresses",
            "powershell -NoProfile -Command Set-DnsClientServerAddress -InterfaceAlias 'Wi-Fi' -ServerAddresses ('1.1.1.1')",
        ]
    );
}

#[test]
fn manager_per_platform() {
    assert!(matches!(get_dns_manager("linux"), Ok(SystemDnsManager::Linux(_))));
    assert!(matches!(get_dns_manager("macos"), Ok(SystemDnsManager::MacOs(_))));
    assert!(matches!(get_dns_manager("windows"), Ok(SystemDnsManager::Windows(_))));
    assert!(matches!(get_dns_manager("freebsd"), Err(PlatformError::Unsupported)));
}

#[test]
fn resolv_conf_reads_back_its_servers() {
    let servers = vec!["10.0.2.3".to_string(), "8.8.8.8".to_string(), "fe80::1".to_string()];
    assert_eq!(parse_resolv_conf(&resolv_conf_content(&servers)).dns_servers, servers);
    assert!(parse_resolv_conf(&resolv_conf_content(&vec![])).dns_servers.is_empty());
}
