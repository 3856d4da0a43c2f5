//! Packet-level blocking: the domain set, and the readers that find the
//! host of an outbound IPv4 TCP packet (HTTP `Host` header, TLS SNI).

use vstd::prelude::*;
use vstd::hash_set::StringHashSet;
use vstd::slice::slice_subrange;
use vstd::utf8::{decode_utf8, valid_utf8};

use crate::text::{
    before_char, before_char_chars, chars_of, has_prefix, lines, lines_chars, lit, slice_chars,
    ascii_lower, lowercase, starts_with, str_to_lowercase, string_of, to_lowercase, trim, trim_chars,
};

verus! {

broadcast use vstd::string::group_string_axioms, vstd::hash_set::group_hash_set_axioms;

/// Calls `std::str::from_utf8`. Claims that it succeeds exactly on valid
/// UTF-8 and then gives the characters the bytes encode.
#[verifier::external_body]
pub(crate) fn decode_utf8_bytes(bytes: &[u8]) -> (r: Option<Vec<char>>)
    ensures
        r is Some <==> valid_utf8(bytes@),
        r matches Some(v) ==> v@ == decode_utf8(bytes@),
{
    std::str::from_utf8(bytes).ok().map(|s| s.chars().collect())
}

// ---------------------------------------------------------------------------
// The blocked domains.
// ---------------------------------------------------------------------------

/// What follows the first dot of `d`.
pub open spec fn after_first_dot(d: Seq<char>) -> Seq<char> {
    d.skip(before_char(d, '.').len() + 1int)
}

/// `d` or one of its parent domains (what follows a dot of it) is in `set`.
pub open spec fn covered_by(set: Set<Seq<char>>, d: Seq<char>) -> bool
    decreases d.len(),
{
    if set.contains(d) {
        true
    } else if d.contains('.') {
        proof {
            lemma_before_char_len(d, '.');
        }
        covered_by(set, after_first_dot(d))
    } else {
        false
    }
}

pub proof fn lemma_before_char_len(d: Seq<char>, c: char)
    ensures
        before_char(d, c).len() <= d.len(),
        d.contains(c) ==> before_char(d, c).len() < d.len() && d[before_char(d, c).len() as int]
            == c,
        !d.contains(c) ==> before_char(d, c) == d,
        forall|k: int| 0 <= k < before_char(d, c).len() ==> d[k] != c && before_char(d, c)[k] == d[k],
    decreases d.len(),
{
    if d.len() > 0 && d[0] != c {
        let rest = before_char(d.drop_first(), c);
        lemma_before_char_len(d.drop_first(), c);
        let b = before_char(d, c);
        assert(b == seq![d[0]] + rest);
        if d.contains(c) {
            let j = choose|j: int| 0 <= j < d.len() && d[j] == c;
            assert(d.drop_first()[j - 1] == c);
        } else {
            assert(!d.drop_first().contains(c)) by {
                if d.drop_first().contains(c) {
                    let j = choose|j: int| 0 <= j < d.drop_first().len() && d.drop_first()[j] == c;
                    assert(d[j + 1] == c);
                }
            }
            assert(b =~= d);
        }
        assert forall|k: int| 0 <= k < b.len() implies d[k] != c && b[k] == d[k] by {
            if k > 0 {
                assert(b[k] == rest[k - 1]);
                assert(d.drop_first()[k - 1] == d[k]);
            }
        }
    } else if d.len() > 0 {
        assert(d.contains(c)) by {
            assert(d[0] == c);
        }
    } else {
        assert(before_char(d, c) =~= d);
    }
}

/// Domains blocked at packet level; a domain is blocked when it or one of
/// its parent domains is listed.
pub struct PacketBlocklist {
    domains: StringHashSet,
}

impl PacketBlocklist {
    pub closed spec fn spec_domains(&self) -> Set<Seq<char>> {
        self.domains@
    }

    pub fn new() -> (r: Self)
        ensures
            r.spec_domains() == Set::<Seq<char>>::empty(),
    {
        PacketBlocklist { domains: StringHashSet::new() }
    }

    /// Lists a domain, in lowercase.
    pub fn add_domain(&mut self, domain: &str)
        ensures
            final(self).spec_domains() == old(self).spec_domains().insert(
                str_to_lowercase(domain@),
            ),
    {
        let d = string_of(&to_lowercase(&chars_of(domain)));
        self.domains.insert(d);
    }

    /// Lists each of the domains, in lowercase.
    pub fn add_domains(&mut self, domains: Vec<&str>)
        ensures
            final(self).spec_domains() == old(self).spec_domains().union(
                lowered(domains@, domains.len() as int),
            ),
    {
        let mut i: usize = 0;
        assert(lowered(domains@, 0) =~= Set::<Seq<char>>::empty());
        assert(self.domains@ =~= old(self).domains@.union(lowered(domains@, 0)));
        while i < domains.len()
            invariant
                i <= domains.len(),
                self.domains@ == old(self).domains@.union(lowered(domains@, i as int)),
            decreases domains.len() - i,
        {
            self.add_domain(domains[i]);
            proof {
                lemma_lowered_step(domains@, i as int);
            }
            assert(self.domains@ =~= old(self).domains@.union(lowered(domains@, i + 1)));
            i += 1;
        }
    }

    /// Whether the domain, in lowercase, or one of its parent domains is
    /// listed.
    pub fn should_block(&self, domain: &str) -> (r: bool)
        ensures
            r == covered_by(self.spec_domains(), str_to_lowercase(domain@)),
    {
        let mut d = to_lowercase(&chars_of(domain));
        let ghost d0 = d@;
        loop
            invariant
                d0 == str_to_lowercase(domain@),
                covered_by(self.domains@, d0) == covered_by(self.domains@, d@),
            decreases d@.len(),
        {
            let s = string_of(&d);
            if self.domains.contains(s.as_str()) {
                return true;
            }
            let head = before_char_chars(&d, '.');
            proof {
                lemma_before_char_len(d@, '.');
            }
            if head.len() == d.len() {
                assert(!d@.contains('.')) by {
                    if d@.contains('.') {
                        assert(before_char(d@, '.').len() < d@.len());
                    }
                }
                return false;
            }
            assert(d@.contains('.')) by {
                assert(d@[before_char(d@, '.').len() as int] == '.');
            }
            let rest = slice_chars(&d, head.len() + 1, d.len());
            assert(rest@ =~= after_first_dot(d@));
            d = rest;
        }
    }

    /// How many domains are listed.
    pub fn len(&self) -> (r: usize)
        ensures
            r == self.spec_domains().len(),
    {
        self.domains.len()
    }
}

/// The lowercase forms of the first `n` domains.
pub open spec fn lowered(domains: Seq<&str>, n: int) -> Set<Seq<char>> {
    Set::new(|d: Seq<char>| exists|k: int| 0 <= k < n && d == str_to_lowercase(#[trigger] domains[k]@))
}

proof fn lemma_lowered_step(domains: Seq<&str>, n: int)
    requires
        0 <= n < domains.len(),
    ensures
        lowered(domains, n + 1) == lowered(domains, n).insert(str_to_lowercase(domains[n]@)),
{
    assert forall|d: Seq<char>|
        #[trigger] lowered(domains, n + 1).contains(d) == lowered(domains, n).insert(
            str_to_lowercase(domains[n]@),
        ).contains(d) by {
        if lowered(domains, n + 1).contains(d) {
            let k = choose|k: int| 0 <= k < n + 1 && d == str_to_lowercase(#[trigger] domains[k]@);
            if k < n {
                assert(lowered(domains, n).contains(d));
            }
        }
        if lowered(domains, n).contains(d) {
            let k = choose|k: int| 0 <= k < n && d == str_to_lowercase(#[trigger] domains[k]@);
            assert(0 <= k < n + 1);
        }
    }
    assert(lowered(domains, n + 1) =~= lowered(domains, n).insert(str_to_lowercase(domains[n]@)));
}

/// If `parent` is listed, every subdomain of it is blocked.
pub proof fn law_parent_blocks_subdomains(set: Set<Seq<char>>, parent: Seq<char>, labels: Seq<char>)
    requires
        set.contains(parent),
    ensures
        covered_by(set, parent),
        covered_by(set, labels + seq!['.'] + parent),
    decreases labels.len(),
{
    let d = labels + seq!['.'] + parent;
    assert(d =~= labels + (seq!['.'] + parent));
    assert(before_char(seq!['.'] + parent, '.') =~= Seq::<char>::empty());
    assert(d.contains('.')) by {
        assert(d[labels.len() as int] == '.');
    }
    if set.contains(d) {
    } else {
        lemma_before_char_len(d, '.');
        let b = before_char(d, '.');
        if labels.contains('.') {
            lemma_before_char_len(labels, '.');
            let bl = before_char(labels, '.');
            // The first dot of `d` is the first dot of `labels`.
            assert(b.len() == bl.len()) by {
                lemma_before_char_prefix(labels, seq!['.'] + parent, '.');
            }
            let rest = labels.skip(bl.len() + 1int);
            assert(after_first_dot(d) =~= rest + seq!['.'] + parent);
            law_parent_blocks_subdomains(set, parent, rest);
        } else {
            assert(b.len() == labels.len()) by {
                lemma_before_char_prefix(labels, seq!['.'] + parent, '.');
            }
            assert(after_first_dot(d) =~= parent);
        }
    }
}

/// The text before the first `c` of `a + b` is that of `a` when `a` holds
/// a `c`, and `a` followed by that of `b` otherwise.
pub proof fn lemma_before_char_prefix(a: Seq<char>, b: Seq<char>, c: char)
    ensures
        a.contains(c) ==> before_char(a + b, c) == before_char(a, c),
        !a.contains(c) ==> before_char(a + b, c) == a + before_char(b, c),
    decreases a.len(),
{
    if a.len() == 0 {
        assert(a + b =~= b);
    } else {
        assert((a + b).drop_first() =~= a.drop_first() + b);
        lemma_before_char_prefix(a.drop_first(), b, c);
        if a[0] != c {
            if a.contains(c) {
                let j = choose|j: int| 0 <= j < a.len() && a[j] == c;
                assert(a.drop_first()[j - 1] == c);
            } else {
                assert(!a.drop_first().contains(c)) by {
                    if a.drop_first().contains(c) {
                        let j = choose|j: int| 0 <= j < a.drop_first().len() && a.drop_first()[j] == c;
                        assert(a[j + 1] == c);
                    }
                }
                assert(seq![a[0]] + (a.drop_first() + before_char(b, c)) =~= a + before_char(b, c));
            }
        } else {
            assert(a.contains(c)) by {
                assert(a[0] == c);
            }
        }
    }
}

// ---------------------------------------------------------------------------
// IPv4 / TCP.
// ---------------------------------------------------------------------------

/// Big-endian value of two bytes.
pub open spec fn be16(a: u8, b: u8) -> int {
    a as int * 256 + b as int
}

/// The destination port and the offset of the payload of an IPv4 TCP
/// packet of at least 40 bytes, from the IHL and the TCP data offset.
pub open spec fn spec_parse_tcp_packet(p: Seq<u8>) -> Option<(u16, usize)> {
    if p.len() < 40 {
        None
    } else if (p[0] >> 4u8) & 0x0Fu8 != 4 {
        None
    } else {
        let ihl = ((p[0] & 0x0Fu8) as int) * 4;
        if p.len() < ihl + 20 {
            None
        } else if p[9] != 6 {
            None
        } else {
            let port = be16(p[ihl + 2], p[ihl + 3]);
            let data_offset = (((p[ihl + 12] >> 4u8) & 0x0Fu8) as int) * 4;
            let payload = ihl + data_offset;
            if payload > p.len() {
                None
            } else {
                Some((port as u16, payload as usize))
            }
        }
    }
}

pub fn parse_tcp_packet(packet: &[u8]) -> (r: Option<(u16, usize)>)
    ensures
        r == spec_parse_tcp_packet(packet@),
        r matches Some((_, off)) ==> off <= packet.len(),
{
    if packet.len() < 40 {
        return None;
    }
    let version = (packet[0] >> 4) & 0x0F;
    if version != 4 {
        return None;
    }
    let ihl = ((packet[0] & 0x0F) as usize) * 4;
    if packet.len() < ihl + 20 {
        return None;
    }
    if packet[9] != 6 {
        return None;
    }
    let tcp_start = ihl;
    let dst_port = (packet[tcp_start + 2] as u16) * 256 + (packet[tcp_start + 3] as u16);
    let data_offset = (((packet[tcp_start + 12] >> 4) & 0x0F) as usize) * 4;
    let payload_offset = tcp_start + data_offset;
    if payload_offset > packet.len() {
        return None;
    }
    Some((dst_port, payload_offset))
}

// ---------------------------------------------------------------------------
// HTTP.
// ---------------------------------------------------------------------------

/// The request starts with one of the HTTP methods and a space.
pub open spec fn starts_with_http_method(text: Seq<char>) -> bool {
    ||| has_prefix(text, "GET "@)
    ||| has_prefix(text, "POST "@)
    ||| has_prefix(text, "HEAD "@)
    ||| has_prefix(text, "PUT "@)
    ||| has_prefix(text, "DELETE "@)
    ||| has_prefix(text, "CONNECT "@)
    ||| has_prefix(text, "OPTIONS "@)
    ||| has_prefix(text, "PATCH "@)
}

/// The host named by the first `Host: ` (or `host: `) header among the
/// lines `ls` from index `i` on, which end at the first empty line: the part
/// before any `:`, trimmed and lowercased.
pub open spec fn header_host(ls: Seq<Seq<char>>, i: int) -> Option<Seq<char>>
    decreases ls.len() - i,
{
    if i < 0 || i >= ls.len() || ls[i].len() == 0 {
        None
    } else if has_prefix(ls[i], "Host: "@) || has_prefix(ls[i], "host: "@) {
        Some(str_to_lowercase(trim(before_char(ls[i].skip("Host: "@.len() as int), ':'))))
    } else {
        header_host(ls, i + 1)
    }
}

/// The host an HTTP request is for, read from its first 2048 bytes, which
/// must be valid UTF-8.
pub open spec fn spec_http_host(payload: Seq<u8>) -> Option<Seq<char>> {
    let head = payload.take(if payload.len() < 2048 { payload.len() as int } else { 2048 });
    if !valid_utf8(head) {
        None
    } else {
        let text = decode_utf8(head);
        if !starts_with_http_method(text) {
            None
        } else {
            header_host(lines(text), 1)
        }
    }
}

fn starts_with_lit(text: &Vec<char>, p: &str) -> (r: bool)
    ensures
        r == has_prefix(text@, p@),
{
    starts_with(text, &lit(p))
}

pub fn extract_http_host(payload: &[u8]) -> (r: Option<String>)
    ensures
        match r {
            Some(h) => spec_http_host(payload@) == Some(h@),
            None => spec_http_host(payload@) is None,
        },
{
    let n = if payload.len() < 2048 {
        payload.len()
    } else {
        2048
    };
    let head = slice_subrange(payload, 0, n);
    assert(head@ =~= payload@.take(n as int));
    let text = match decode_utf8_bytes(head) {
        Some(t) => t,
        None => {
            return None;
        },
    };
    if !starts_with_lit(&text, "GET ") && !starts_with_lit(&text, "POST ") && !starts_with_lit(
        &text,
        "HEAD ",
    ) && !starts_with_lit(&text, "PUT ") && !starts_with_lit(&text, "DELETE ")
        && !starts_with_lit(&text, "CONNECT ") && !starts_with_lit(&text, "OPTIONS ")
        && !starts_with_lit(&text, "PATCH ") {
        return None;
    }
    let ls = lines_chars(&text);
    let ghost lv = ls@.map_values(|v: Vec<char>| v@);
    let mut i: usize = 1;
    assert(spec_http_host(payload@) == header_host(lv, 1));
    while i < ls.len()
        invariant
            1 <= i,
            lv == ls@.map_values(|v: Vec<char>| v@),
            spec_http_host(payload@) == header_host(lv, 1),
            header_host(lv, 1) == header_host(lv, i as int),
        decreases ls.len() - i,
    {
        let line = &ls[i];
        assert(lv[i as int] == line@);
        if line.len() == 0 {
            return None;
        }
        let host_prefix = starts_with_lit(line, "Host: ");
        let lower_prefix = starts_with_lit(line, "host: ");
        if host_prefix || lower_prefix {
            proof {
                reveal_strlit("Host: ");
                reveal_strlit("host: ");
            }
            let rest = slice_chars(line, 6, line.len());
            assert(rest@ =~= line@.skip("Host: "@.len() as int));
            let host = before_char_chars(&rest, ':');
            let t = trim_chars(&host);
            return Some(string_of(&to_lowercase(&t)));
        }
        i += 1;
    }
    None
}

// ---------------------------------------------------------------------------
// TLS.
// ---------------------------------------------------------------------------

/// The server name in the first SNI extension of the extension block of
/// `hs` running from `pos` to `end`, as written; nothing when the first SNI
/// extension is malformed or there is none.
pub open spec fn sni_in_extensions(hs: Seq<u8>, pos: int, end: int) -> Option<Seq<char>>
    decreases end - pos,
{
    if pos < 0 || pos + 4 > end {
        None
    } else {
        let ext_type = be16(hs[pos], hs[pos + 1]);
        let ext_len = be16(hs[pos + 2], hs[pos + 3]);
        let data = pos + 4;
        if ext_type == 0 {
            if ext_len >= 5 && data + ext_len <= hs.len() {
                let name_len = be16(hs[data + 3], hs[data + 4]);
                let name_start = data + 5;
                if name_start + name_len <= hs.len() {
                    let name = hs.subrange(name_start, name_start + name_len);
                    if valid_utf8(name) {
                        Some(decode_utf8(name))
                    } else {
                        None
                    }
                } else {
                    None
                }
            } else {
                None
            }
        } else if data + ext_len > end {
            None
        } else {
            sni_in_extensions(hs, data + ext_len, end)
        }
    }
}

/// The SNI host name of a TLS ClientHello record, lowercased.
pub open spec fn spec_tls_sni(p: Seq<u8>) -> Option<Seq<char>> {
    match spec_tls_sni_name(p) {
        Some(x) => Some(lowercase(x)),
        None => None,
    }
}

/// The SNI host name of a TLS ClientHello record, as written: the record
/// header (content type 22 and a length the payload holds), the handshake
/// type 1, then past version and random, the session id, the cipher suites
/// and the compression methods, to the extensions.
pub open spec fn spec_tls_sni_name(p: Seq<u8>) -> Option<Seq<char>> {
    if p.len() < 5 || p[0] != 0x16 {
        None
    } else if p.len() < 5 + be16(p[3], p[4]) {
        None
    } else {
        let hs = p.skip(5);
        if hs.len() == 0 || hs[0] != 0x01 || hs.len() < 38 || 38 >= hs.len() {
            None
        } else {
            let after_session = 38 + 1 + hs[38] as int;
            if after_session + 2 > hs.len() {
                None
            } else {
                let after_suites = after_session + 2 + be16(
                    hs[after_session],
                    hs[after_session + 1],
                );
                if after_suites + 1 > hs.len() {
                    None
                } else {
                    let after_compression = after_suites + 1 + hs[after_suites] as int;
                    if after_compression + 2 > hs.len() {
                        None
                    } else {
                        let ext_len = be16(hs[after_compression], hs[after_compression + 1]);
                        let start = after_compression + 2;
                        if start + ext_len > hs.len() {
                            None
                        } else {
                            sni_in_extensions(hs, start, start + ext_len)
                        }
                    }
                }
            }
        }
    }
}

/// In the extension block of a ClientHello, an extension that is not
/// server_name (type 0) is stepped over by the length it announces: the
/// server name is looked for in what follows, so a GREASE or any other
/// extension placed before server_name does not hide it.
pub proof fn law_sni_skips_other_extensions(hs: Seq<u8>, pos: int, end: int)
    requires
        0 <= pos,
        pos + 4 <= end,
        be16(hs[pos], hs[pos + 1]) != 0,
        pos + 4 + be16(hs[pos + 2], hs[pos + 3]) <= end,
    ensures
        sni_in_extensions(hs, pos, end) == sni_in_extensions(
            hs,
            pos + 4 + be16(hs[pos + 2], hs[pos + 3]),
            end,
        ),
{
}

/// A well-formed server_name extension gives the name it carries: the
/// bytes after its two-byte name length, as UTF-8.
pub proof fn law_sni_extension_names_host(hs: Seq<u8>, pos: int, end: int)
    requires
        0 <= pos,
        pos + 4 <= end,
        be16(hs[pos], hs[pos + 1]) == 0,
        be16(hs[pos + 2], hs[pos + 3]) >= 5,
        pos + 4 + be16(hs[pos + 2], hs[pos + 3]) <= hs.len(),
        pos + 9 + be16(hs[pos + 7], hs[pos + 8]) <= hs.len(),
        valid_utf8(hs.subrange(pos + 9, pos + 9 + be16(hs[pos + 7], hs[pos + 8]))),
    ensures
        sni_in_extensions(hs, pos, end) == Some(
            decode_utf8(hs.subrange(pos + 9, pos + 9 + be16(hs[pos + 7], hs[pos + 8]))),
        ),
{
}

/// A server name found in a ClientHello comes from a record of content
/// type 22 whose payload holds the length its header announces, carrying a
/// handshake of type 1; and when the name is ASCII, as the SNI extension
/// requires of host names, what is returned is its own lowercase.
pub proof fn law_sni_is_lowercase(p: Seq<u8>)
    ensures
        spec_tls_sni(p) is Some ==> p[0] == 0x16 && p.len() >= 5 + be16(p[3], p[4]) && p[5] == 0x01,
        spec_tls_sni_name(p) matches Some(x) && vstd::utf8::is_ascii_chars(x) ==> (spec_tls_sni(p) matches Some(s)
            && lowercase(s) == s),
{
    if spec_tls_sni(p) is Some {
        assert(p.skip(5)[0] == p[5]);
    }
    if spec_tls_sni_name(p) is Some && vstd::utf8::is_ascii_chars(spec_tls_sni_name(p)->0) {
        let x = spec_tls_sni_name(p)->0;
        let s = lowercase(x);
        assert(s == x.map_values(|c: char| ascii_lower(c)));
        assert(vstd::utf8::is_ascii_chars(s)) by {
            assert forall|i: int| 0 <= i < s.len() implies '\0' <= #[trigger] s[i] <= '\u{7f}' by {
                assert(s[i] == ascii_lower(x[i]));
                assert('\0' <= x[i] <= '\u{7f}');
            }
        }
        assert(lowercase(s) =~= s) by {
            assert forall|i: int| 0 <= i < s.len() implies #[trigger] lowercase(s)[i] == s[i] by {
                assert(lowercase(s)[i] == ascii_lower(s[i]));
                assert(s[i] == ascii_lower(x[i]));
            }
        }
    }
}

fn be16_exec(a: u8, b: u8) -> (r: usize)
    ensures
        r == be16(a, b),
        r <= 65535,
{
    (a as usize) * 256 + (b as usize)
}

pub fn extract_tls_sni(payload: &[u8]) -> (r: Option<String>)
    ensures
        match r {
            Some(h) => spec_tls_sni(payload@) == Some(h@),
            None => spec_tls_sni(payload@) is None,
        },
{
    if payload.len() < 5 {
        return None;
    }
    if payload[0] != 0x16 {
        return None;
    }
    let record_len = be16_exec(payload[3], payload[4]);
    if payload.len() - 5 < record_len {
        return None;
    }
    let hs = slice_subrange(payload, 5, payload.len());
    assert(hs@ =~= payload@.skip(5));
    if hs.len() == 0 || hs[0] != 0x01 {
        return None;
    }
    if hs.len() < 38 {
        return None;
    }
    let mut pos: usize = 38;
    if pos >= hs.len() {
        return None;
    }
    let session_id_len = hs[pos] as usize;
    if hs.len() - pos < 1 + session_id_len + 2 {
        return None;
    }
    pos = pos + 1 + session_id_len;
    let cs_len = be16_exec(hs[pos], hs[pos + 1]);
    if hs.len() - (pos + 2) < cs_len + 1 {
        return None;
    }
    pos = pos + 2 + cs_len;
    let cm_len = hs[pos] as usize;
    if hs.len() - pos < 1 + cm_len + 2 {
        return None;
    }
    pos = pos + 1 + cm_len;
    let ext_len = be16_exec(hs[pos], hs[pos + 1]);
    pos = pos + 2;
    if hs.len() - pos < ext_len {
        return None;
    }
    let ext_end = pos + ext_len;
    let ghost h = hs@;
    assert(sni_in_extensions(h, pos as int, ext_end as int) == spec_tls_sni_name(payload@));
    loop
        invariant
            pos <= ext_end <= hs.len(),
            h == hs@,
            sni_in_extensions(h, pos as int, ext_end as int) == spec_tls_sni_name(payload@),
        decreases ext_end - pos,
    {
        if ext_end - pos < 4 {
            return None;
        }
        let ext_type = be16_exec(hs[pos], hs[pos + 1]);
        let ext_data_len = be16_exec(hs[pos + 2], hs[pos + 3]);
        let data = pos + 4;
        if ext_type == 0 {
            if ext_data_len >= 5 && hs.len() - data >= ext_data_len {
                let name_len = be16_exec(hs[data + 3], hs[data + 4]);
                let name_start = data + 5;
                if hs.len() - name_start >= name_len {
                    let name = slice_subrange(hs, name_start, name_start + name_len);
                    return match decode_utf8_bytes(name) {
                        Some(chars) => Some(string_of(&to_lowercase(&chars))),
                        None => None,
                    };
                }
            }
            return None;
        }
        if ext_end - data < ext_data_len {
            return None;
        }
        pos = data + ext_data_len;
    }
}

/// Whether an outbound packet goes to a blocked host: plain HTTP to port 80
/// by its `Host` header, TLS to port 443 by its SNI. Packets that cannot be
/// read, and all other ports, pass.
pub open spec fn spec_should_drop(set: Set<Seq<char>>, packet: Seq<u8>) -> bool {
    match spec_parse_tcp_packet(packet) {
        None => false,
        Some((port, off)) => {
            let payload = packet.skip(off as int);
            if port == 80 {
                match spec_http_host(payload) {
                    Some(h) => covered_by(set, str_to_lowercase(h)),
                    None => false,
                }
            } else if port == 443 {
                match spec_tls_sni(payload) {
                    Some(h) => covered_by(set, str_to_lowercase(h)),
                    None => false,
                }
            } else {
                false
            }
        },
    }
}

/// Decides whether a diverted packet is dropped (`true`) or re-injected.
pub fn should_drop_packet(blocklist: &PacketBlocklist, packet: &[u8]) -> (r: bool)
    ensures
        r == spec_should_drop(blocklist.spec_domains(), packet@),
{
    let (dst_port, payload_offset) = match parse_tcp_packet(packet) {
        Some(v) => v,
        None => {
            return false;
        },
    };
    let payload = slice_subrange(packet, payload_offset, packet.len());
    assert(payload@ =~= packet@.skip(payload_offset as int));
    if dst_port == 80 {
        match extract_http_host(payload) {
            Some(host) => blocklist.should_block(host.as_str()),
            None => false,
        }
    } else if dst_port == 443 {
        match extract_tls_sni(payload) {
            Some(sni) => blocklist.should_block(sni.as_str()),
            None => false,
        }
    } else {
        false
    }
}

/// Why the packet filter could not start.
#[derive(Debug)]
pub enum PacketFilterError {
    LoadFailed(String),
    OpenFailed(String),
    Io(std::io::Error),
}

/// The packet filter: drops outbound packets to blocked hosts and lets the
/// others through.
pub struct PacketFilter {
    pub blocklist: PacketBlocklist,
}

impl PacketFilter {
    pub fn new(blocklist: PacketBlocklist) -> (r: Self)
        ensures
            r.blocklist.spec_domains() == blocklist.spec_domains(),
    {
        PacketFilter { blocklist }
    }

    /// Whether a diverted packet is dropped rather than sent on.
    pub fn should_drop(&self, packet: &[u8]) -> (r: bool)
        ensures
            r == spec_should_drop(self.blocklist.spec_domains(), packet@),
    {
        should_drop_packet(&self.blocklist, packet)
    }
}

} // verus!
