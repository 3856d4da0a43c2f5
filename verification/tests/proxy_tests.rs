use freeix::http_proxy::{
    bad_gateway_response, blocked_plain_response, blocked_tunnel_response, classify_request_line, connect_host,
    connection_established_response, header_line, plain_step, tunnel_step, HeaderLine, PlainStep, ProxyRequest,
    TunnelStep,
};
use freeix::url_filter::UrlFilter;

#[test]
fn default_rules_block_ad_paths() {
    let f = UrlFilter::new();
    assert!(f.should_block("www.youtube.com", "/api/stats/ads?x=1", "https://www.youtube.com/api/stats/ads?x=1"));
    assert!(f.should_block("example.com", "/pagead/conversion/1", "https://example.com/pagead/conversion/1"));
    assert!(!f.should_block("www.youtube.com", "/watch?v=abc", "https://www.youtube.com/watch?v=abc"));
}

#[test]
fn default_rules_block_ad_networks_by_regex() {
    let f = UrlFilter::new();
    assert!(f.should_block("stats.g.doubleclick.net", "/x", "https://stats.g.doubleclick.net/x"));
    assert!(f.should_block("site.com", "/a", "https://site.com/pixel?id=1"));
    assert!(f.should_block("www.facebook.com", "/tr?id=1", "https://www.facebook.com/tr?id=1"));
    assert!(!f.should_block("docs.rs", "/regex", "https://docs.rs/regex"));
}

#[test]
fn added_rules_take_effect() {
    let mut f = UrlFilter::new();
    assert!(!f.should_block("a.com", "/promo/1", "https://a.com/promo/1"));
    f.add_path_rule("/promo/");
    assert!(f.should_block("a.com", "/promo/1", "https://a.com/promo/1"));
    f.add_regex_rule(r"banner[0-9]+\.png");
    assert!(f.should_block("b.com", "/i/banner12.png", "https://b.com/i/banner12.png"));
    // A pattern that does not compile leaves the compiled set as it was.
    f.add_regex_rule("(unclosed");
    assert!(f.should_block("b.com", "/i/banner12.png", "https://b.com/i/banner12.png"));
    assert!(f.should_block("stats.g.doubleclick.net", "/x", "https://stats.g.doubleclick.net/x"));
}

#[test]
fn request_lines_are_classified() {
    assert!(matches!(
        classify_request_line("CONNECT ads.example.com:443 HTTP/1.1\r\n"),
        Some(ProxyRequest::Connect { target }) if target == "ads.example.com:443"
    ));
    assert!(matches!(classify_request_line("connect a.b:443 HTTP/1.1"), Some(ProxyRequest::Connect { .. })));
    assert!(matches!(classify_request_line("GET http://a.b/ HTTP/1.1\r\n"), Some(ProxyRequest::Plain)));
    assert!(classify_request_line("").is_none());
    assert!(classify_request_line("GET\r\n").is_none());
    assert_eq!(connect_host("ads.example.com:443"), "ads.example.com");
    assert_eq!(connect_host("noport"), "noport");
}

#[test]
fn tunnel_requests() {
    let f = UrlFilter::new();
    match tunnel_step(&f, "www.youtube.com", "GET /api/stats/ads?v=1 HTTP/1.1\r\n") {
        TunnelStep::Block { url } => assert_eq!(url, "https://www.youtube.com/api/stats/ads?v=1"),
        _ => panic!("expected a block"),
    }
    match tunnel_step(&f, "www.youtube.com", "GET /watch HTTP/1.1\r\n") {
        TunnelStep::Forward { url } => assert_eq!(url, "https://www.youtube.com/watch"),
        _ => panic!("expected a forward"),
    }
    assert!(matches!(tunnel_step(&f, "a.b", "\r\n"), TunnelStep::Stop));
    assert!(matches!(tunnel_step(&f, "a.b", "GET\r\n"), TunnelStep::Stop));
}

#[test]
fn plain_requests() {
    let f = UrlFilter::new();
    match plain_step(&f, "GET http://example.com/index.html HTTP/1.1\r\n") {
        PlainStep::Forward { upstream, request_line } => {
            assert_eq!(upstream, "example.com:80");
            assert_eq!(request_line, "GET /index.html HTTP/1.1\r\n");
        }
        _ => panic!("expected a forward"),
    }
    match plain_step(&f, "GET http://example.com:8080 HTTP/1.0") {
        PlainStep::Forward { upstream, request_line } => {
            assert_eq!(upstream, "example.com:8080");
            assert_eq!(request_line, "GET / HTTP/1.0\r\n");
        }
        _ => panic!("expected a forward"),
    }
    assert!(matches!(
        plain_step(&f, "GET http://ads.doubleclick.net/x HTTP/1.1"),
        PlainStep::Block { url } if url == "http://ads.doubleclick.net/x"
    ));
    assert!(matches!(plain_step(&f, "GET http://a.b/"), PlainStep::Ignore));
}

#[test]
fn headers_are_read() {
    assert!(matches!(header_line("\r\n"), HeaderLine::End));
    assert!(matches!(header_line("Content-Length: 42\r\n"), HeaderLine::ContentLength(42)));
    assert!(matches!(header_line("content-length:+7"), HeaderLine::ContentLength(7)));
    assert!(matches!(header_line("CONTENT-LENGTH: lots"), HeaderLine::ContentLength(0)));
    assert!(matches!(header_line("Content-Length: 99999999999999999999999"), HeaderLine::ContentLength(0)));
    assert!(matches!(header_line("Host: a.b\r\n"), HeaderLine::Other));
}

#[test]
fn fixed_answers() {
    assert_eq!(connection_established_response(), "HTTP/1.1 200 Connection Established\r\n\r\n");
    assert_eq!(
        blocked_tunnel_response(),
        "HTTP/1.1 204 No Content\r\nConnection: keep-alive\r\nContent-Length: 0\r\n\r\n"
    );
    assert_eq!(blocked_plain_response(), "HTTP/1.1 204 No Content\r\nContent-Length: 0\r\n\r\n");
    assert_eq!(bad_gateway_response(), "HTTP/1.1 502 Bad Gateway\r\nContent-Length: 0\r\n\r\n");
}

#[test]
fn content_lengths_in_decimal() {
    assert!(matches!(header_line("Content-Length: 5353"), HeaderLine::ContentLength(5353)));
    assert!(matches!(header_line("Content-Length: 0"), HeaderLine::ContentLength(0)));
    assert!(matches!(header_line("Content-Length:"), HeaderLine::ContentLength(0)));
}

#[test]
fn invalid_regex_is_left_out() {
    let mut f = UrlFilter::new();
    f.add_regex_rule("(");
    f.add_regex_rule(r"foo\.example/ad");
    assert!(f.should_block("foo.example", "/ad", "http://foo.example/ad"));
}
