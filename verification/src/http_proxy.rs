//! The decisions of the filtering HTTP/HTTPS proxy: how a request line is
//! read, which requests are refused and what they are answered, and where
//! the others are forwarded. The sockets, the TLS handshakes and the copying
//! of bytes are done by the caller.

use vstd::prelude::*;

use crate::text::{
    before_char, before_char_chars, chars_eq_ignore_ascii_case, chars_of, concat_chars,
    contains_char, eq_ignore_ascii_case, has_prefix, lit, parse_usize, slice_chars, spec_parse_usize,
    split, split_chars, starts_with, str_to_lowercase, string_of, to_lowercase, trim, trim_chars,
    words, words_chars,
};
use crate::url_filter::{spec_url_blocked, UrlFilter};

verus! {

broadcast use vstd::string::group_string_axioms;

/// Answer to a CONNECT request before the TLS handshake.
pub fn connection_established_response() -> (r: &'static str)
    ensures
        r@ == "HTTP/1.1 200 Connection Established\r\n\r\n"@,
{
    "HTTP/1.1 200 Connection Established\r\n\r\n"
}

/// Answer to a refused request inside a CONNECT tunnel: empty, and the
/// connection stays open.
pub fn blocked_tunnel_response() -> (r: &'static str)
    ensures
        r@ == "HTTP/1.1 204 No Content\r\nConnection: keep-alive\r\nContent-Length: 0\r\n\r\n"@,
{
    "HTTP/1.1 204 No Content\r\nConnection: keep-alive\r\nContent-Length: 0\r\n\r\n"
}

/// Answer to a refused plain HTTP request.
pub fn blocked_plain_response() -> (r: &'static str)
    ensures
        r@ == "HTTP/1.1 204 No Content\r\nContent-Length: 0\r\n\r\n"@,
{
    "HTTP/1.1 204 No Content\r\nContent-Length: 0\r\n\r\n"
}

/// Answer when the real server cannot be reached.
pub fn bad_gateway_response() -> (r: &'static str)
    ensures
        r@ == "HTTP/1.1 502 Bad Gateway\r\nContent-Length: 0\r\n\r\n"@,
{
    "HTTP/1.1 502 Bad Gateway\r\nContent-Length: 0\r\n\r\n"
}

/// The whitespace-separated parts of a request line.
pub open spec fn request_parts(line: Seq<char>) -> Seq<Seq<char>> {
    words(trim(line))
}

fn request_parts_of(line: &str) -> (r: Vec<Vec<char>>)
    ensures
        r@.map_values(|v: Vec<char>| v@) == request_parts(line@),
{
    let t = trim_chars(&chars_of(line));
    words_chars(&t)
}

/// What the first line a client sends asks for.
#[derive(Debug)]
pub enum ProxyRequest {
    /// A tunnel to `target` (`host:port`), for HTTPS.
    Connect { target: String },
    /// A plain HTTP request carrying a full URL.
    Plain,
}

/// How the first line is read: nothing for an empty line or fewer than two
/// parts; a tunnel when the method is `CONNECT` in any ASCII case.
pub open spec fn spec_classify(line: Seq<char>) -> Option<Option<Seq<char>>> {
    let parts = request_parts(line);
    if line.len() == 0 || parts.len() < 2 {
        None
    } else if eq_ignore_ascii_case(parts[0], "CONNECT"@) {
        Some(Some(parts[1]))
    } else {
        Some(None)
    }
}

pub open spec fn request_view(r: Option<ProxyRequest>) -> Option<Option<Seq<char>>> {
    match r {
        None => None,
        Some(ProxyRequest::Connect { target }) => Some(Some(target@)),
        Some(ProxyRequest::Plain) => Some(None),
    }
}

pub fn classify_request_line(line: &str) -> (r: Option<ProxyRequest>)
    ensures
        request_view(r) == spec_classify(line@),
{
    let parts = request_parts_of(line);
    let ghost pv = parts@.map_values(|v: Vec<char>| v@);
    if line.unicode_len() == 0 || parts.len() < 2 {
        return None;
    }
    assert(pv[0] == parts@[0]@ && pv[1] == parts@[1]@);
    if chars_eq_ignore_ascii_case(&parts[0], &lit("CONNECT")) {
        Some(ProxyRequest::Connect { target: string_of(&parts[1]) })
    } else {
        Some(ProxyRequest::Plain)
    }
}

/// The host of a CONNECT target: the text before the first `:`.
pub fn connect_host(target: &str) -> (r: String)
    ensures
        r@ == before_char(target@, ':'),
{
    string_of(&before_char_chars(&chars_of(target), ':'))
}

/// The URL a request inside a tunnel to `host` stands for.
pub open spec fn spec_tunnel_url(host: Seq<char>, path: Seq<char>) -> Seq<char> {
    "https://"@ + host + path
}

/// What to do with a request read inside a tunnel.
#[derive(Debug)]
pub enum TunnelStep {
    /// Close the tunnel: the line is empty or has fewer than two parts.
    Stop,
    /// Answer with the blocked response; the URL is given for the log.
    Block { url: String },
    /// Forward the request to the real server.
    Forward { url: String },
}

pub open spec fn tunnel_view(t: TunnelStep) -> Option<(bool, Seq<char>)> {
    match t {
        TunnelStep::Stop => None,
        TunnelStep::Block { url } => Some((true, url@)),
        TunnelStep::Forward { url } => Some((false, url@)),
    }
}

/// Reads a request line inside a tunnel to `host` and decides it: the URL
/// is `https://`, the host and the request's path; it is refused when the
/// filter refuses that path and URL.
pub open spec fn spec_tunnel_step(
    filter: crate::url_filter::UrlFilterView,
    host: Seq<char>,
    line: Seq<char>,
) -> Option<(bool, Seq<char>)> {
    let parts = request_parts(line);
    if parts.len() < 2 {
        None
    } else {
        let url = spec_tunnel_url(host, parts[1]);
        Some((spec_url_blocked(filter, parts[1], url), url))
    }
}

pub fn tunnel_step(filter: &UrlFilter, host: &str, request_line: &str) -> (r: TunnelStep)
    ensures
        tunnel_view(r) == spec_tunnel_step(filter@, host@, request_line@),
{
    let parts = request_parts_of(request_line);
    if parts.len() < 2 {
        return TunnelStep::Stop;
    }
    let ghost pv = parts@.map_values(|v: Vec<char>| v@);
    assert(pv[1] == parts@[1]@);
    let path = string_of(&parts[1]);
    let mut url = String::from_str("https://");
    url.append(host);
    url.append(path.as_str());
    assert(url@ =~= spec_tunnel_url(host@, pv[1]));
    if filter.should_block(host, path.as_str(), url.as_str()) {
        TunnelStep::Block { url }
    } else {
        TunnelStep::Forward { url }
    }
}

/// The host of a plain request's URL: after `http://`, up to the first `/`;
/// empty for a URL without that scheme.
pub open spec fn spec_plain_host(url: Seq<char>) -> Seq<char> {
    if has_prefix(url, "http://"@) {
        before_char(url.skip(7), '/')
    } else {
        seq![]
    }
}

/// The path of a plain request's URL: after `http://`, from the first `/`
/// on; `/` when there is none or the scheme is missing.
pub open spec fn spec_plain_path(url: Seq<char>) -> Seq<char> {
    if has_prefix(url, "http://"@) {
        let rest = url.skip(7);
        let h = before_char(rest, '/');
        if h.len() < rest.len() {
            rest.skip(h.len() as int)
        } else {
            "/"@
        }
    } else {
        "/"@
    }
}

/// Where a plain request is forwarded: the host as given when it names a
/// port, else port 80.
pub open spec fn spec_upstream_host(host: Seq<char>) -> Seq<char> {
    if host.contains(':') {
        host
    } else {
        host + ":80"@
    }
}

/// The request line sent to the real server: the method, the path alone,
/// and the version.
pub open spec fn spec_rebuilt_line(method: Seq<char>, path: Seq<char>, version: Seq<char>) -> Seq<char> {
    method + " "@ + path + " "@ + version + "\r\n"@
}

/// What to do with a plain HTTP request.
#[derive(Debug)]
pub enum PlainStep {
    /// Drop the connection: the line has fewer than three parts.
    Ignore,
    /// Answer with the blocked response.
    Block { url: String },
    /// Forward the rebuilt request line to the upstream address.
    Forward { upstream: String, request_line: String },
}

pub ghost enum PlainView {
    Ignore,
    Block(Seq<char>),
    Forward(Seq<char>, Seq<char>),
}

pub open spec fn plain_view(p: PlainStep) -> PlainView {
    match p {
        PlainStep::Ignore => PlainView::Ignore,
        PlainStep::Block { url } => PlainView::Block(url@),
        PlainStep::Forward { upstream, request_line } => PlainView::Forward(upstream@, request_line@),
    }
}

pub open spec fn spec_plain_step(filter: crate::url_filter::UrlFilterView, line: Seq<char>) -> PlainView {
    let parts = request_parts(line);
    if parts.len() < 3 {
        PlainView::Ignore
    } else {
        let url = parts[1];
        let host = spec_plain_host(url);
        let path = spec_plain_path(url);
        if spec_url_blocked(filter, path, url) {
            PlainView::Block(url)
        } else {
            PlainView::Forward(spec_upstream_host(host), spec_rebuilt_line(parts[0], path, parts[2]))
        }
    }
}

/// A plain request for `http://` + `host` + `path`, where the host holds
/// no `/` and the path starts with one, is read as that host and that very
/// path, query string and all: putting `http://`, the host and the path
/// together gives the URL back. A URL with no path after its host is sent
/// for `/`.
pub proof fn law_plain_url_splits(host: Seq<char>, path: Seq<char>)
    requires
        !host.contains('/'),
    ensures
        path.len() > 0 && path[0] == '/' ==> spec_plain_host("http://"@ + host + path) == host
            && spec_plain_path("http://"@ + host + path) == path,
        spec_plain_host("http://"@ + host) == host,
        spec_plain_path("http://"@ + host) == "/"@,
{
    reveal_strlit("http://");
    let url = "http://"@ + host + path;
    assert(url.take(7) =~= "http://"@);
    assert(url.skip(7) =~= host + path);
    crate::packet::lemma_before_char_prefix(host, path, '/');
    if path.len() > 0 && path[0] == '/' {
        assert(before_char(path, '/') == Seq::<char>::empty());
        assert(host + Seq::<char>::empty() =~= host);
        assert((host + path).skip(host.len() as int) =~= path);
    }
    let bare = "http://"@ + host;
    assert(bare.take(7) =~= "http://"@);
    assert(bare.skip(7) =~= host);
    crate::packet::lemma_before_char_prefix(host, Seq::<char>::empty(), '/');
    assert(host + Seq::<char>::empty() =~= host);
    assert(before_char(Seq::<char>::empty(), '/') == Seq::<char>::empty());
}

fn plain_host_path(url: &Vec<char>) -> (r: (Vec<char>, Vec<char>))
    ensures
        r.0@ == spec_plain_host(url@),
        r.1@ == spec_plain_path(url@),
{
    proof {
        reveal_strlit("http://");
    }
    if starts_with(url, &lit("http://")) {
        let rest = slice_chars(url, 7, url.len());
        assert(rest@ =~= url@.skip(7));
        let h = before_char_chars(&rest, '/');
        proof {
            crate::packet::lemma_before_char_len(rest@, '/');
        }
        let path = if h.len() < rest.len() {
            slice_chars(&rest, h.len(), rest.len())
        } else {
            lit("/")
        };
        assert(h.len() < rest.len() ==> path@ =~= rest@.skip(h@.len() as int));
        (h, path)
    } else {
        (Vec::new(), lit("/"))
    }
}

pub fn plain_step(filter: &UrlFilter, request_line: &str) -> (r: PlainStep)
    ensures
        plain_view(r) == spec_plain_step(filter@, request_line@),
{
    let parts = request_parts_of(request_line);
    if parts.len() < 3 {
        return PlainStep::Ignore;
    }
    let ghost pv = parts@.map_values(|v: Vec<char>| v@);
    assert(pv[0] == parts@[0]@ && pv[1] == parts@[1]@ && pv[2] == parts@[2]@);
    let (host, path) = plain_host_path(&parts[1]);
    let url = string_of(&parts[1]);
    let path_s = string_of(&path);
    let host_s = string_of(&host);
    if filter.should_block(host_s.as_str(), path_s.as_str(), url.as_str()) {
        return PlainStep::Block { url };
    }
    let upstream = if contains_char(&host, ':') {
        host_s
    } else {
        let mut u = host_s;
        u.append(":80");
        u
    };
    let mut line = string_of(&parts[0]);
    line.append(" ");
    line.append(path_s.as_str());
    line.append(" ");
    line.append(string_of(&parts[2]).as_str());
    line.append("\r\n");
    assert(line@ =~= spec_rebuilt_line(pv[0], path@, pv[2]));
    PlainStep::Forward { upstream, request_line: line }
}

/// A header line, as the proxy reads it.
#[derive(Debug)]
pub enum HeaderLine {
    /// The blank line that ends the headers.
    End,
    /// A `Content-Length` header (any case) and the length it gives, 0
    /// when it gives none that reads as a number.
    ContentLength(usize),
    /// Any other header.
    Other,
}

pub open spec fn header_view(h: HeaderLine) -> Option<Option<usize>> {
    match h {
        HeaderLine::End => None,
        HeaderLine::ContentLength(n) => Some(Some(n)),
        HeaderLine::Other => Some(None),
    }
}

/// The length a `Content-Length` line gives: the text between its first and
/// second `:`, trimmed and read as a decimal number, or 0.
pub open spec fn spec_content_length(line: Seq<char>) -> usize {
    let pieces = split(line, ':');
    if pieces.len() >= 2 {
        match spec_parse_usize(trim(pieces[1])) {
            Some(n) => n,
            None => 0,
        }
    } else {
        0
    }
}

pub open spec fn spec_header_line(line: Seq<char>) -> Option<Option<usize>> {
    if trim(line).len() == 0 {
        None
    } else if has_prefix(str_to_lowercase(line), "content-length:"@) {
        Some(Some(spec_content_length(line)))
    } else {
        Some(None)
    }
}

pub fn header_line(line: &str) -> (r: HeaderLine)
    ensures
        header_view(r) == spec_header_line(line@),
{
    let c = chars_of(line);
    if trim_chars(&c).len() == 0 {
        return HeaderLine::End;
    }
    if !starts_with(&to_lowercase(&c), &lit("content-length:")) {
        return HeaderLine::Other;
    }
    let pieces = split_chars(&c, ':');
    let ghost pv = pieces@.map_values(|v: Vec<char>| v@);
    if pieces.len() < 2 {
        return HeaderLine::ContentLength(0);
    }
    assert(pv[1] == pieces@[1]@);
    match parse_usize(&trim_chars(&pieces[1])) {
        Some(n) => HeaderLine::ContentLength(n),
        None => HeaderLine::ContentLength(0),
    }
}

} // verus!
