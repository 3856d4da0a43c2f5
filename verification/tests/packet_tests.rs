use freeix::packet::{extract_http_host, extract_tls_sni, parse_tcp_packet, should_drop_packet, PacketBlocklist, PacketFilter};

fn tcp_packet(dst_port: u16, payload: &[u8]) -> Vec<u8> {
    let mut p = vec![0u8; 40];
    p[0] = 0x45;
    p[9] = 6;
    p[20 + 2] = (dst_port >> 8) as u8;
    p[20 + 3] = (dst_port & 0xff) as u8;
    p[20 + 12] = 0x50;
    p.extend_from_slice(payload);
    p
}

fn client_hello(sni: &str) -> Vec<u8> {
    let name = sni.as_bytes();
    let mut ext = Vec::new();
    ext.extend_from_slice(&[0x00, 0x00]);
    let data_len = 5 + name.len();
    ext.extend_from_slice(&[(data_len >> 8) as u8, data_len as u8]);
    let list_len = 3 + name.len();
    ext.extend_from_slice(&[(list_len >> 8) as u8, list_len as u8, 0x00]);
    ext.extend_from_slice(&[(name.len() >> 8) as u8, name.len() as u8]);
    ext.extend_from_slice(name);
    let mut hs = vec![0x01, 0, 0, 0, 0x03, 0x03];
    hs.extend_from_slice(&[0u8; 32]);
    hs.push(0); // session id
    hs.extend_from_slice(&[0x00, 0x02, 0x13, 0x01]); // one cipher suite
    hs.extend_from_slice(&[0x01, 0x00]); // one compression method
    hs.extend_from_slice(&[(ext.len() >> 8) as u8, ext.len() as u8]);
    hs.extend_from_slice(&ext);
    let mut rec = vec![0x16, 0x03, 0x01, (hs.len() >> 8) as u8, hs.len() as u8];
    rec.extend_from_slice(&hs);
    rec
}

#[test]
fn tcp_header_parsing() {
    let p = tcp_packet(443, b"hello");
    assert_eq!(parse_tcp_packet(&p), Some((443, 40)));
    assert_eq!(parse_tcp_packet(&p[..39]), None);
    let mut v6 = p.clone();
    v6[0] = 0x65;
    assert_eq!(parse_tcp_packet(&v6), None);
    let mut udp = p.clone();
    udp[9] = 17;
    assert_eq!(parse_tcp_packet(&udp), None);
    let mut long_offset = tcp_packet(80, b"");
    long_offset[32] = 0xf0;
    assert_eq!(parse_tcp_packet(&long_offset), None);
}

#[test]
fn http_host_header() {
    assert_eq!(
        extract_http_host(b"GET / HTTP/1.1\r\nHost: Ads.Example.com:8080\r\nAccept: */*\r\n\r\n"),
        Some("ads.example.com".to_string())
    );
    assert_eq!(extract_http_host(b"POST /x HTTP/1.1\r\nhost: a.b\r\n\r\n"), Some("a.b".to_string()));
    assert_eq!(extract_http_host(b"BREW / HTTP/1.1\r\nHost: a.b\r\n\r\n"), None);
    assert_eq!(extract_http_host(b"GET / HTTP/1.1\r\n\r\nHost: late.com\r\n"), None);
    assert_eq!(extract_http_host(&[0xff, 0xfe]), None);
}

#[test]
fn tls_server_name() {
    assert_eq!(extract_tls_sni(&client_hello("Ads.Example.COM")), Some("ads.example.com".to_string()));
    let mut not_handshake = client_hello("a.com");
    not_handshake[0] = 0x17;
    assert_eq!(extract_tls_sni(&not_handshake), None);
    let hello = client_hello("a.com");
    assert_eq!(extract_tls_sni(&hello[..hello.len() - 3]), None);
    assert_eq!(extract_tls_sni(&[0x16, 0x03]), None);
}

#[test]
fn blocklist_covers_parent_domains() {
    let mut b = PacketBlocklist::new();
    b.add_domain("DoubleClick.net");
    b.add_domains(vec!["ads.example.com", "tracker.io"]);
    assert_eq!(b.len(), 3);
    assert!(b.should_block("doubleclick.net"));
    assert!(b.should_block("stats.g.DOUBLECLICK.net"));
    assert!(b.should_block("x.ads.example.com"));
    assert!(!b.should_block("example.com"));
    assert!(!b.should_block("notdoubleclick.net"));
}

#[test]
fn packets_to_blocked_hosts_are_dropped() {
    let mut b = PacketBlocklist::new();
    b.add_domain("ads.example.com");
    let filter = PacketFilter::new(b);
    let http = tcp_packet(80, b"GET / HTTP/1.1\r\nHost: ads.example.com\r\n\r\n");
    assert!(filter.should_drop(&http));
    let tls = tcp_packet(443, &client_hello("cdn.ads.example.com"));
    assert!(filter.should_drop(&tls));
    let ok = tcp_packet(443, &client_hello("example.org"));
    assert!(!filter.should_drop(&ok));
    let other_port = tcp_packet(8080, b"GET / HTTP/1.1\r\nHost: ads.example.com\r\n\r\n");
    assert!(!should_drop_packet(&filter.blocklist, &other_port));
    assert!(!filter.should_drop(&[1, 2, 3]));
}
