use freeix::dns::with_query_id;
use freeix::dns::{resolve_step, ResolveStep};
use freeix::dns::{handle_query_bytes, read_reply, QueryStep};
use hickory_proto::serialize::binary::BinEncodable;
use freeix::dns::{immediate_response, store_answer};
use freeix::dns_cache::{CacheKey, DnsCache};
use freeix::dns::{
    cache_ttl, decide_query, make_blocked_response, make_nxdomain, make_servfail, query_domain, tcp_frame,
    tcp_frame_length, DnsRequest, DnsServerConfig, QueryDecision, Question, ResponseCode, ServerLifecycle,
    LifecycleError, BLOCKED_ANSWER_TTL, RECORD_A, RECORD_AAAA,
};
use freeix::filter::FilterEngine;
use freeix::upstream::{socket_v4, IpAddress, UpstreamConfig, UpstreamEntry, UpstreamProtocol, UpstreamProvider, UpstreamResolver};

fn request(name: &str, t: u16) -> DnsRequest {
    DnsRequest { id: 0x1234, queries: vec![Question { name: name.to_string(), record_type: t, class: 1 }] }
}

#[test]
fn blocked_response_answers_unspecified_addresses() {
    let mut req = request("ads.example.com.", RECORD_A);
    req.queries.push(Question { name: "ads.example.com.".to_string(), record_type: RECORD_AAAA, class: 1 });
    req.queries.push(Question { name: "ads.example.com.".to_string(), record_type: 16, class: 1 });
    let r = make_blocked_response(&req);
    assert_eq!(r.id, 0x1234);
    assert_eq!(r.response_code, ResponseCode::NoError);
    assert!(r.recursion_desired && r.recursion_available);
    assert_eq!(r.queries.len(), 3);
    // Only the first question is answered.
    assert_eq!(r.answers.len(), 1);
    assert_eq!(r.answers[0].record_type, RECORD_A);
    assert_eq!(r.answers[0].ttl, BLOCKED_ANSWER_TTL);
    assert_eq!(r.answers[0].name, "ads.example.com.");
    let aaaa = make_blocked_response(&request("t.net.", RECORD_AAAA));
    assert_eq!(aaaa.answers[0].record_type, RECORD_AAAA);
    let txt = make_blocked_response(&request("t.net.", 16));
    assert!(txt.answers.is_empty());
    assert_eq!(txt.response_code, ResponseCode::NoError);
}

#[test]
fn error_responses() {
    let req = request("x.com.", RECORD_A);
    let nx = make_nxdomain(&req);
    assert_eq!(nx.response_code, ResponseCode::NXDomain);
    assert!(nx.answers.is_empty());
    let sf = make_servfail(&req);
    assert_eq!(sf.response_code, ResponseCode::ServFail);
    assert_eq!(sf.id, 0x1234);
}

#[test]
fn query_domains_drop_trailing_dots_and_case() {
    assert_eq!(query_domain("Ads.Example.COM."), "ads.example.com");
    assert_eq!(query_domain("a.b"), "a.b");
}

#[test]
fn decisions_follow_the_filter() {
    let mut engine = FilterEngine::new();
    engine.load_rules(vec!["ads.example.com"]).unwrap();
    match decide_query(&engine, &request("ads.example.com.", RECORD_A)) {
        QueryDecision::Blocked { domain, rule } => {
            assert_eq!(domain, "ads.example.com");
            assert_eq!(rule, "ads.example.com");
        }
        other => panic!("unexpected {:?}", other),
    }
    match decide_query(&engine, &request("Example.com.", RECORD_AAAA)) {
        QueryDecision::Lookup { domain, key } => {
            assert_eq!(domain, "example.com");
            assert_eq!(key.name, "example.com");
            assert_eq!(key.record_type, RECORD_AAAA);
        }
        other => panic!("unexpected {:?}", other),
    }
    let empty = DnsRequest { id: 1, queries: vec![] };
    assert!(matches!(decide_query(&engine, &empty), QueryDecision::ServFail));
}

#[test]
fn cache_ttl_is_clamped_least() {
    assert_eq!(cache_ttl(&vec![300, 120, 900], 60, 86400), 120);
    assert_eq!(cache_ttl(&vec![5], 60, 86400), 60);
    assert_eq!(cache_ttl(&vec![], 60, 86400), 60);
    assert_eq!(cache_ttl(&vec![200_000], 60, 86400), 86400);
}

#[test]
fn tcp_framing() {
    let msg = vec![0xab; 300];
    let f = tcp_frame(&msg);
    assert_eq!(&f[..2], &[0x01, 0x2c]);
    assert_eq!(f.len(), 302);
    assert_eq!(tcp_frame_length(0x01, 0x2c), 300);
}

#[test]
fn server_defaults_and_lifecycle() {
    let c = DnsServerConfig::default();
    assert_eq!(c.listen_addr, socket_v4(127, 0, 0, 1, 53));
    assert_eq!(c.cache_size, 10000);
    assert_eq!((c.min_ttl, c.max_ttl), (60, 86400));
    let mut s = ServerLifecycle::new();
    assert!(!s.is_running());
    assert_eq!(s.stop(), Err(LifecycleError::NotRunning));
    assert_eq!(s.start(), Ok(()));
    assert_eq!(s.start(), Err(LifecycleError::AlreadyRunning));
    assert_eq!(s.stop(), Ok(()));
}

#[test]
fn provider_servers() {
    let e = UpstreamProvider::AdGuard.to_entries();
    assert_eq!(e.len(), 2);
    assert_eq!(e[0].address, socket_v4(94, 140, 14, 14, 53));
    assert_eq!(e[1].hostname.as_deref(), Some("dns.adguard-dns.com"));
    assert_eq!(UpstreamProvider::Mullvad.to_entries()[0].address, socket_v4(194, 242, 2, 2, 53));
    assert_eq!(UpstreamProvider::Mullvad.to_entries()[1].address, socket_v4(194, 242, 2, 3, 53));
    assert_eq!(UpstreamProvider::Mullvad.to_entries().len(), 2);
    assert_eq!(UpstreamProvider::Google.to_entries()[1].address, socket_v4(8, 8, 4, 4, 53));
}

#[test]
fn resolver_servers_and_attempts() {
    let doh = UpstreamEntry {
        address: socket_v4(9, 9, 9, 9, 443),
        protocol: UpstreamProtocol::DoH,
        hostname: None,
        doh_url: Some("https://dns.quad9.net/dns-query".to_string()),
    };
    let config = UpstreamConfig {
        providers: vec![UpstreamProvider::Cloudflare, UpstreamProvider::Custom(vec![doh])],
        timeout_secs: 5,
        retries: 1,
    };
    let r = UpstreamResolver::new(config);
    assert_eq!(
        r.servers().clone(),
        vec![socket_v4(1, 1, 1, 1, 53), socket_v4(1, 0, 0, 1, 53), socket_v4(9, 9, 9, 9, 53)]
    );
    let order = r.attempt_order();
    assert_eq!(order.len(), 6);
    assert_eq!(order[3], socket_v4(1, 1, 1, 1, 53));
    let empty = UpstreamResolver::new(UpstreamConfig { providers: vec![], timeout_secs: 5, retries: 2 });
    assert_eq!(empty.servers().clone(), vec![socket_v4(8, 8, 8, 8, 53), socket_v4(8, 8, 4, 4, 53)]);
    assert!(matches!(empty.servers()[0].ip, IpAddress::V4(8, 8, 8, 8)));
}

#[test]
fn listed_domain_query_is_refused_with_unspecified_address() {
    let mut engine = FilterEngine::new();
    engine.load_rules(vec!["tracker.net", "@@ok.tracker.net"]).unwrap();
    let req = request("Tracker.NET.", RECORD_A);
    match decide_query(&engine, &req) {
        QueryDecision::Blocked { rule, .. } => assert_eq!(rule, "tracker.net"),
        other => panic!("unexpected {:?}", other),
    }
    let resp = make_blocked_response(&req);
    assert_eq!(resp.response_code, ResponseCode::NoError);
    assert_eq!(resp.answers.len(), 1);
    assert!(matches!(decide_query(&engine, &request("ok.tracker.net.", RECORD_A)), QueryDecision::Lookup { .. }));
}

#[test]
fn immediate_responses_and_stored_answers() {
    let mut engine = FilterEngine::new();
    engine.load_rules(vec!["ads.example.com"]).unwrap();
    let blocked = request("ads.example.com.", RECORD_A);
    let d = decide_query(&engine, &blocked);
    let r = immediate_response(&blocked, &d).unwrap();
    assert_eq!(r.response_code, ResponseCode::NoError);
    assert_eq!(r.answers.len(), 1);
    let empty = DnsRequest { id: 9, queries: vec![] };
    let r = immediate_response(&empty, &decide_query(&engine, &empty)).unwrap();
    assert_eq!(r.response_code, ResponseCode::ServFail);
    let open = request("example.com.", RECORD_A);
    assert!(immediate_response(&open, &decide_query(&engine, &open)).is_none());

    let mut cache: DnsCache<u32> = DnsCache::new(10);
    let key = CacheKey { name: "example.com".to_string(), record_type: RECORD_A };
    store_answer(&mut cache, key.clone(), 5, &vec![120, 30], &DnsServerConfig::default());
    assert_eq!(cache.get(&key), Some(5));
    assert_eq!(cache.len(), 1);
}

fn wire_query(id: u16, name: &str, t: hickory_proto::rr::RecordType) -> Vec<u8> {
    let mut m = hickory_proto::op::Message::new();
    m.set_id(id);
    m.add_query(hickory_proto::op::Query::query(hickory_proto::rr::Name::from_ascii(name).unwrap(), t));
    m.to_bytes().unwrap()
}

#[test]
fn wire_query_for_listed_domain_is_answered_at_once() {
    let mut f = FilterEngine::new();
    f.load_rules(vec!["ads.example.com"]).unwrap();
    let bytes = wire_query(7, "Ads.Example.com.", hickory_proto::rr::RecordType::A);
    match handle_query_bytes(&f, &bytes) {
        QueryStep::Decided { request, decision, response, .. } => {
            assert_eq!(request.id, 7);
            assert_eq!(request.queries.len(), 1);
            assert_eq!(request.queries[0].record_type, RECORD_A);
            assert!(matches!(decision, QueryDecision::Blocked { .. }));
            let r = response.unwrap();
            assert_eq!(r.id, 7);
            assert_eq!(r.response_code, ResponseCode::NoError);
            assert_eq!(r.answers.len(), 1);
        }
        QueryStep::Malformed => panic!("query read as malformed"),
    }
}

#[test]
fn wire_query_for_other_domain_is_looked_up() {
    let f = FilterEngine::new();
    let bytes = wire_query(9, "example.org.", hickory_proto::rr::RecordType::AAAA);
    match handle_query_bytes(&f, &bytes) {
        QueryStep::Decided { decision, response, .. } => {
            assert!(response.is_none());
            match decision {
                QueryDecision::Lookup { domain, key } => {
                    assert_eq!(domain, "example.org");
                    assert_eq!(key.record_type, RECORD_AAAA);
                }
                _ => panic!("expected a lookup"),
            }
        }
        QueryStep::Malformed => panic!("query read as malformed"),
    }
}

#[test]
fn garbage_bytes_are_malformed() {
    let f = FilterEngine::new();
    assert!(matches!(handle_query_bytes(&f, &[1, 2, 3]), QueryStep::Malformed));
    assert!(read_reply(&[1, 2, 3]).is_none());
}

#[test]
fn reply_answer_ttls_are_read() {
    let mut m = hickory_proto::op::Message::new();
    m.set_id(3);
    let name = hickory_proto::rr::Name::from_ascii("example.org.").unwrap();
    m.add_answer(hickory_proto::rr::Record::from_rdata(
        name.clone(),
        120,
        hickory_proto::rr::RData::A(hickory_proto::rr::rdata::A::new(1, 2, 3, 4)),
    ));
    m.add_answer(hickory_proto::rr::Record::from_rdata(
        name,
        60,
        hickory_proto::rr::RData::A(hickory_proto::rr::rdata::A::new(1, 2, 3, 5)),
    ));
    let (msg, ttls) = read_reply(&m.to_bytes().unwrap()).unwrap();
    assert_eq!(ttls, vec![120, 60]);
    assert_eq!(msg.id(), 3);
}

#[test]
fn first_decoded_reply_ends_resolution() {

    assert!(matches!(resolve_step(3, 0, None), ResolveStep::Try(1)));
    assert!(matches!(resolve_step(3, 2, None), ResolveStep::AllFailed));
    match resolve_step(3, 1, Some((hickory_proto::op::Message::new(), vec![30]))) {
        ResolveStep::Answered(_, ttls) => assert_eq!(ttls, vec![30]),
        _ => panic!("expected the reply"),
    }
}

#[test]
fn reply_gets_the_query_id() {
    assert_eq!(with_query_id(vec![0, 0, 9, 9], 0xABCD), vec![0xAB, 0xCD, 9, 9]);
    assert_eq!(with_query_id(vec![7], 0xABCD), vec![7]);
    let mut m = hickory_proto::op::Message::new();
    m.set_id(1);
    let bytes = with_query_id(m.to_bytes().unwrap(), 0x1234);
    let (back, _) = read_reply(&bytes).unwrap();
    assert_eq!(back.id(), 0x1234);
}
