//! Blocklist sources and the parsers for hosts files, adblock filter lists
//! and plain domain lists.

use vstd::prelude::*;

use crate::text::{
    ascii_line, before_char, before_char_chars, char_is_alphanumeric, chars_of, concat_chars,
    contains_char, contains_chars, ends_clean, eq_chars, has_infix, has_prefix, has_suffix,
    is_alphanumeric, is_ascii_alphanumeric_char, lemma_before_char_ascii, lemma_lines_ascii,
    lemma_lines_join, lemma_lowercase_ascii, lemma_split_from_concat, lemma_split_from_no_sep,
    lemma_split_from_nonempty, lemma_subrange_ascii, lemma_trim_ascii, lemma_trim_strip_cr,
    lemma_words_ascii, lines, lines_chars, lit, lowercase, opt_chars, slice_chars, split,
    starts_with, string_of, strip_cr, to_lowercase, trim, trim_chars, trim_end, trim_start,
    utf8_len, utf8_len_up_to, views, whitespace, words, words_chars,
};

verus! {

broadcast use vstd::string::group_string_axioms;

/// The syntax a blocklist is written in.
#[derive(Debug, Clone, Copy, PartialEq, Eq, Structural)]
pub enum BlocklistFormat {
    Hosts,
    Adblock,
    DomainList,
}

/// Where a blocklist comes from.
#[derive(Debug)]
pub struct BlocklistSource {
    pub name: String,
    pub url: String,
    pub format: BlocklistFormat,
    pub enabled: bool,
}

/// A registered blocklist and what is known of its last download.
#[derive(Debug)]
pub struct BlocklistMeta {
    pub source: BlocklistSource,
    pub domain_count: usize,
    /// Seconds since the Unix epoch of the last successful update.
    pub last_updated: Option<u64>,
    pub local_path: String,
}

impl BlocklistSource {
    pub open spec fn spec_is(self, name: &str, url: &str, format: BlocklistFormat) -> bool {
        &&& self.name@ == name@
        &&& self.url@ == url@
        &&& self.format == format
        &&& self.enabled
    }

    pub fn steven_black_unified() -> (r: Self)
        ensures
            r.spec_is(
                "StevenBlack Unified",
                "https://raw.githubusercontent.com/StevenBlack/hosts/master/hosts",
                BlocklistFormat::Hosts,
            ),
    {
        BlocklistSource {
            name: String::from_str("StevenBlack Unified"),
            url: String::from_str("https://raw.githubusercontent.com/StevenBlack/hosts/master/hosts"),
            format: BlocklistFormat::Hosts,
            enabled: true,
        }
    }

    pub fn oisd_big() -> (r: Self)
        ensures
            r.spec_is("OISD Big", "https://big.oisd.nl/domainswild", BlocklistFormat::DomainList),
    {
        BlocklistSource {
            name: String::from_str("OISD Big"),
            url: String::from_str("https://big.oisd.nl/domainswild"),
            format: BlocklistFormat::DomainList,
            enabled: true,
        }
    }

    pub fn easyprivacy() -> (r: Self)
        ensures
            r.spec_is(
                "EasyPrivacy",
                "https://v.firebog.net/hosts/Easyprivacy.txt",
                BlocklistFormat::DomainList,
            ),
    {
        BlocklistSource {
            name: String::from_str("EasyPrivacy"),
            url: String::from_str("https://v.firebog.net/hosts/Easyprivacy.txt"),
            format: BlocklistFormat::DomainList,
            enabled: true,
        }
    }

    pub fn adguard_dns() -> (r: Self)
        ensures
            r.spec_is(
                "AdGuard DNS Filter",
                "https://adguardteam.github.io/HostlistsRegistry/assets/filter_1.txt",
                BlocklistFormat::Adblock,
            ),
    {
        BlocklistSource {
            name: String::from_str("AdGuard DNS Filter"),
            url: String::from_str(
                "https://adguardteam.github.io/HostlistsRegistry/assets/filter_1.txt",
            ),
            format: BlocklistFormat::Adblock,
            enabled: true,
        }
    }
}

/// The default blocklist sources for ads, trackers and malware, in this
/// order: StevenBlack Unified, OISD Big, EasyPrivacy, AdGuard DNS Filter.
pub fn default_blocklists() -> (r: Vec<BlocklistSource>)
    ensures
        r.len() == 4,
        r[0].spec_is(
            "StevenBlack Unified",
            "https://raw.githubusercontent.com/StevenBlack/hosts/master/hosts",
            BlocklistFormat::Hosts,
        ),
        r[1].spec_is("OISD Big", "https://big.oisd.nl/domainswild", BlocklistFormat::DomainList),
        r[2].spec_is(
            "EasyPrivacy",
            "https://v.firebog.net/hosts/Easyprivacy.txt",
            BlocklistFormat::DomainList,
        ),
        r[3].spec_is(
            "AdGuard DNS Filter",
            "https://adguardteam.github.io/HostlistsRegistry/assets/filter_1.txt",
            BlocklistFormat::Adblock,
        ),
{
    let mut r = Vec::new();
    r.push(BlocklistSource::steven_black_unified());
    r.push(BlocklistSource::oisd_big());
    r.push(BlocklistSource::easyprivacy());
    r.push(BlocklistSource::adguard_dns());
    r
}

// ---------------------------------------------------------------------------
// Line grammars.
// ---------------------------------------------------------------------------

/// `0.0.0.0 domain` or `127.0.0.1 domain`, without the local host names.
pub open spec fn spec_hosts_line(line: Seq<char>) -> Option<Seq<char>> {
    let parts = words(line);
    if parts.len() < 2 {
        None
    } else if parts[0] != "0.0.0.0"@ && parts[0] != "127.0.0.1"@ {
        None
    } else {
        let domain = lowercase(parts[1]);
        if domain == "localhost"@ || domain == "localhost.localdomain"@ || domain
            == "broadcasthost"@ {
            None
        } else {
            Some(domain)
        }
    }
}

pub open spec fn starts_with_two(s: Seq<char>, a: char, b: char) -> bool {
    s.len() >= 2 && s[0] == a && s[1] == b
}

/// `||domain^` with optional `$options` or path, cut at the first `^`,
/// then `$`, then `/`; allow rules (`@@`) give nothing.
pub open spec fn spec_adblock_line(line: Seq<char>) -> Option<Seq<char>> {
    if starts_with_two(line, '@', '@') {
        None
    } else if starts_with_two(line, '|', '|') {
        Some(
            lowercase(
                trim(before_char(before_char(before_char(line.skip(2), '^'), '$'), '/')),
            ),
        )
    } else {
        None
    }
}

/// A domain worth keeping: non-empty, at most 253 bytes, no space, not
/// starting with `.` or `-`, and holding at least one dot.
pub open spec fn spec_valid_domain(d: Seq<char>) -> bool {
    &&& d.len() > 0
    &&& utf8_len(d) <= 253
    &&& !d.contains(' ')
    &&& d[0] != '.'
    &&& d[0] != '-'
    &&& d.contains('.')
}

/// `str::trim_start_matches("*.")`: every leading `*.` removed.
pub open spec fn strip_wildcard_prefixes(s: Seq<char>) -> Seq<char>
    decreases s.len(),
{
    if starts_with_two(s, '*', '.') {
        strip_wildcard_prefixes(s.skip(2))
    } else {
        s
    }
}

/// The rule that one trimmed, non-comment line yields.
pub open spec fn spec_parse_line(line: Seq<char>, format: BlocklistFormat) -> Option<Seq<char>> {
    match format {
        BlocklistFormat::Hosts => match spec_hosts_line(line) {
            Some(d) => if spec_valid_domain(d) {
                Some(d)
            } else {
                None
            },
            None => None,
        },
        BlocklistFormat::DomainList => {
            let d = lowercase(strip_wildcard_prefixes(line));
            if spec_valid_domain(d) {
                if starts_with_two(line, '*', '.') {
                    Some(seq!['*', '.'] + d)
                } else {
                    Some(d)
                }
            } else {
                None
            }
        },
        BlocklistFormat::Adblock => match spec_adblock_line(line) {
            Some(d) => if spec_valid_domain(d) {
                Some(d)
            } else {
                None
            },
            None => None,
        },
    }
}

/// A line that carries nothing: empty after trimming, or a `#` / `!`
/// comment.
pub open spec fn is_skipped_line(line: Seq<char>) -> bool {
    line.len() == 0 || line[0] == '#' || line[0] == '!'
}

/// The rule that one raw line of a blocklist yields.
pub open spec fn spec_line_entry(raw: Seq<char>, format: BlocklistFormat) -> Option<Seq<char>> {
    let line = trim(raw);
    if is_skipped_line(line) {
        None
    } else {
        spec_parse_line(line, format)
    }
}

/// The rules of the given lines, in order.
pub open spec fn spec_entries(ls: Seq<Seq<char>>, format: BlocklistFormat) -> Seq<Seq<char>>
    decreases ls.len(),
{
    if ls.len() == 0 {
        seq![]
    } else {
        let rest = spec_entries(ls.drop_last(), format);
        match spec_line_entry(ls.last(), format) {
            Some(d) => rest.push(d),
            None => rest,
        }
    }
}

/// The normalized domain rules of a whole blocklist.
pub open spec fn spec_parse_blocklist(content: Seq<char>, format: BlocklistFormat) -> Seq<
    Seq<char>,
> {
    spec_entries(lines(content), format)
}

/// A rule as blocklists give them: a domain worth keeping, or `*.`
/// followed by one.
pub open spec fn is_domain_rule(r: Seq<char>) -> bool {
    spec_valid_domain(r) || (starts_with_two(r, '*', '.') && spec_valid_domain(r.skip(2)))
}

proof fn lemma_entries_are_domain_rules(ls: Seq<Seq<char>>, format: BlocklistFormat)
    ensures
        forall|i: int|
            0 <= i < spec_entries(ls, format).len() ==> is_domain_rule(
                #[trigger] spec_entries(ls, format)[i],
            ),
    decreases ls.len(),
{
    if ls.len() > 0 {
        lemma_entries_are_domain_rules(ls.drop_last(), format);
        let rest = spec_entries(ls.drop_last(), format);
        let line = trim(ls.last());
        match spec_line_entry(ls.last(), format) {
            Some(d) => {
                assert(is_domain_rule(d)) by {
                    if format == BlocklistFormat::DomainList {
                        let e = lowercase(strip_wildcard_prefixes(line));
                        assert((seq!['*', '.'] + e).skip(2) =~= e);
                    }
                }
                assert forall|i: int| 0 <= i < rest.push(d).len() implies is_domain_rule(
                    #[trigger] rest.push(d)[i],
                ) by {
                    if i < rest.len() {
                        assert(rest.push(d)[i] == rest[i]);
                    }
                }
            },
            None => {},
        }
    }
}

proof fn lemma_entries_concat(a: Seq<Seq<char>>, b: Seq<Seq<char>>, format: BlocklistFormat)
    ensures
        spec_entries(a + b, format) == spec_entries(a, format) + spec_entries(b, format),
    decreases b.len(),
{
    if b.len() == 0 {
        assert(a + b =~= a);
        assert(spec_entries(a, format) + spec_entries(b, format) =~= spec_entries(a, format));
    } else {
        assert((a + b).drop_last() =~= a + b.drop_last());
        assert((a + b).last() == b.last());
        lemma_entries_concat(a, b.drop_last(), format);
        match spec_line_entry(b.last(), format) {
            Some(d) => {
                assert(spec_entries(a, format) + spec_entries(b.drop_last(), format).push(d) =~= (
                spec_entries(a, format) + spec_entries(b.drop_last(), format)).push(d));
            },
            None => {},
        }
    }
}

/// The rules of a text made of two texts joined by a line feed are the rules
/// of the first followed by those of the second: each line is read on its
/// own and the rules keep the order of the lines.
pub proof fn law_parse_joined_text(a: Seq<char>, b: Seq<char>, format: BlocklistFormat)
    ensures
        spec_parse_blocklist(a + seq!['\n'] + b, format) == spec_parse_blocklist(a, format)
            + spec_parse_blocklist(b, format),
{
    lemma_lines_join(a, b);
    let pa = split(a, '\n');
    lemma_split_from_nonempty(a, '\n', seq![]);
    let la = lines(a);
    let head = if pa.last().len() == 0 {
        la.push(Seq::<char>::empty())
    } else {
        la.drop_last().push(strip_cr(pa.last()))
    };
    lemma_entries_concat(head, lines(b), format);
    assert(spec_entries(head, format) == spec_entries(la, format)) by {
        assert(head.drop_last() =~= if pa.last().len() == 0 { la } else { la.drop_last() });
        if pa.last().len() == 0 {
            assert(trim_start(Seq::<char>::empty()) == Seq::<char>::empty());
            assert(trim_end(Seq::<char>::empty()) == Seq::<char>::empty());
            assert(spec_line_entry(Seq::<char>::empty(), format) is None);
        } else {
            assert(la.len() == pa.len());
            assert(la.last() == pa.last());
            lemma_trim_strip_cr(pa.last());
            assert(spec_line_entry(strip_cr(pa.last()), format) == spec_line_entry(pa.last(), format));
        }
    }
}

/// The number of lines that are neither empty after trimming nor comments.
pub open spec fn content_lines(ls: Seq<Seq<char>>) -> nat
    decreases ls.len(),
{
    if ls.len() == 0 {
        0
    } else if is_skipped_line(trim(ls.last())) {
        content_lines(ls.drop_last())
    } else {
        content_lines(ls.drop_last()) + 1
    }
}

proof fn lemma_entries_len(ls: Seq<Seq<char>>, format: BlocklistFormat)
    ensures
        spec_entries(ls, format).len() <= content_lines(ls),
    decreases ls.len(),
{
    if ls.len() > 0 {
        lemma_entries_len(ls.drop_last(), format);
    }
}

/// Every rule a blocklist yields is a domain worth keeping (non-empty, at
/// most 253 bytes in UTF-8, no space, not starting with `.` or `-`, holding a
/// dot), or (in a domain list) `*.` followed by one; and there are no more
/// rules than lines that are neither blank nor comments.
pub proof fn law_parsed_rules_are_domains(content: Seq<char>, format: BlocklistFormat)
    ensures
        forall|i: int|
            0 <= i < spec_parse_blocklist(content, format).len() ==> is_domain_rule(
                #[trigger] spec_parse_blocklist(content, format)[i],
            ),
        spec_parse_blocklist(content, format).len() <= content_lines(lines(content)),
{
    lemma_entries_are_domain_rules(lines(content), format);
    lemma_entries_len(lines(content), format);
}

// ---------------------------------------------------------------------------
// Parsers.
// ---------------------------------------------------------------------------

/// Parses one line of a hosts file.
pub fn parse_hosts_line(line: &Vec<char>) -> (r: Option<Vec<char>>)
    ensures
        opt_chars(r) == spec_hosts_line(line@),
{
    let parts = words_chars(line);
    assert(parts@.len() == words(line@).len());
    if parts.len() < 2 {
        return None;
    }
    assert(parts@[0]@ == words(line@)[0]);
    assert(parts@[1]@ == words(line@)[1]);
    let ip = &parts[0];
    if !eq_chars(ip, &lit("0.0.0.0")) && !eq_chars(ip, &lit("127.0.0.1")) {
        return None;
    }
    let domain = to_lowercase(&parts[1]);
    if eq_chars(&domain, &lit("localhost")) || eq_chars(&domain, &lit("localhost.localdomain"))
        || eq_chars(&domain, &lit("broadcasthost")) {
        return None;
    }
    Some(domain)
}

/// Parses one line of an adblock filter list.
pub fn parse_adblock_line(line: &Vec<char>) -> (r: Option<Vec<char>>)
    ensures
        opt_chars(r) == spec_adblock_line(line@),
{
    if line.len() >= 2 && line[0] == '@' && line[1] == '@' {
        return None;
    }
    if line.len() >= 2 && line[0] == '|' && line[1] == '|' {
        let rest = slice_chars(line, 2, line.len());
        assert(rest@ =~= line@.skip(2));
        let a = before_char_chars(&rest, '^');
        let b = before_char_chars(&a, '$');
        let c = before_char_chars(&b, '/');
        let t = trim_chars(&c);
        return Some(to_lowercase(&t));
    }
    None
}

/// Whether a domain is worth keeping as a rule.
pub fn is_valid_domain(domain: &Vec<char>) -> (r: bool)
    ensures
        r == spec_valid_domain(domain@),
{
    if domain.len() == 0 {
        return false;
    }
    match utf8_len_up_to(domain, 253) {
        None => {
            return false;
        },
        Some(_) => {},
    }
    if contains_char(domain, ' ') || domain[0] == '.' || domain[0] == '-' {
        return false;
    }
    contains_char(domain, '.')
}

#[verifier::spinoff_prover]
fn strip_wildcard_prefixes_chars(s: &Vec<char>) -> (r: Vec<char>)
    ensures
        r@ == strip_wildcard_prefixes(s@),
{
    let mut i: usize = 0;
    assert(s@.skip(0) =~= s@);
    while s.len() - i >= 2 && s[i] == '*' && s[i + 1] == '.'
        invariant
            i <= s.len(),
            strip_wildcard_prefixes(s@) == strip_wildcard_prefixes(s@.skip(i as int)),
        decreases s.len() - i,
    {
        let ghost t = s@.skip(i as int);
        assert(starts_with_two(t, '*', '.'));
        assert(t.skip(2) =~= s@.skip(i + 2));
        assert(strip_wildcard_prefixes(t) == strip_wildcard_prefixes(t.skip(2)));
        i += 2;
    }
    let ghost t = s@.skip(i as int);
    assert(!starts_with_two(t, '*', '.'));
    assert(strip_wildcard_prefixes(t) == t);
    let r = slice_chars(s, i, s.len());
    assert(r@ =~= t);
    r
}

/// The rule of one trimmed, non-comment line.
fn parse_line(line: &Vec<char>, format: BlocklistFormat) -> (r: Option<Vec<char>>)
    ensures
        opt_chars(r) == spec_parse_line(line@, format),
{
    match format {
        BlocklistFormat::Hosts => match parse_hosts_line(line) {
            Some(d) => if is_valid_domain(&d) {
                Some(d)
            } else {
                None
            },
            None => None,
        },
        BlocklistFormat::DomainList => {
            let d = to_lowercase(&strip_wildcard_prefixes_chars(line));
            if is_valid_domain(&d) {
                if line.len() >= 2 && line[0] == '*' && line[1] == '.' {
                    let mut w: Vec<char> = Vec::new();
                    w.push('*');
                    w.push('.');
                    let r = concat_chars(&w, &d);
                    assert(w@ =~= seq!['*', '.']);
                    Some(r)
                } else {
                    Some(d)
                }
            } else {
                None
            }
        },
        BlocklistFormat::Adblock => match parse_adblock_line(line) {
            Some(d) => if is_valid_domain(&d) {
                Some(d)
            } else {
                None
            },
            None => None,
        },
    }
}

/// Parses blocklist content in the given format into normalized domain
/// rules: one per line that yields one, in the order of the lines.
pub fn parse_blocklist(content: &str, format: &BlocklistFormat) -> (r: Vec<String>)
    ensures
        views(r@) == spec_parse_blocklist(content@, *format),
{
    let chars = chars_of(content);
    let ls = lines_chars(&chars);
    let ghost lv = ls@.map_values(|v: Vec<char>| v@);
    assert(lv == lines(content@));
    let mut domains: Vec<String> = Vec::new();
    let mut i: usize = 0;
    while i < ls.len()
        invariant
            i <= ls.len(),
            lv == ls@.map_values(|v: Vec<char>| v@),
            views(domains@) == spec_entries(lv.take(i as int), *format),
        decreases ls.len() - i,
    {
        assert(lv.take(i + 1).drop_last() =~= lv.take(i as int));
        assert(lv.take(i + 1).last() == ls@[i as int]@);
        let line = trim_chars(&ls[i]);
        let entry = if line.len() == 0 || line[0] == '#' || line[0] == '!' {
            None
        } else {
            parse_line(&line, *format)
        };
        match entry {
            Some(d) => {
                let ghost before = views(domains@);
                let s = string_of(&d);
                domains.push(s);
                assert(views(domains@) =~= before.push(d@));
            },
            None => {},
        }
        i += 1;
    }
    assert(lv.take(ls.len() as int) =~= lv);
    domains
}

/// One of the names a hosts file gives to the machine itself.
pub open spec fn is_local_host_name(d: Seq<char>) -> bool {
    d == "localhost"@ || d == "localhost.localdomain"@ || d == "broadcasthost"@
}

proof fn lemma_hosts_entries_not_local(ls: Seq<Seq<char>>)
    ensures
        forall|i: int|
            0 <= i < spec_entries(ls, BlocklistFormat::Hosts).len() ==> !is_local_host_name(
                #[trigger] spec_entries(ls, BlocklistFormat::Hosts)[i],
            ),
    decreases ls.len(),
{
    if ls.len() > 0 {
        lemma_hosts_entries_not_local(ls.drop_last());
        let rest = spec_entries(ls.drop_last(), BlocklistFormat::Hosts);
        match spec_line_entry(ls.last(), BlocklistFormat::Hosts) {
            Some(d) => {
                assert(!is_local_host_name(d));
                assert forall|i: int| 0 <= i < rest.push(d).len() implies !is_local_host_name(
                    #[trigger] rest.push(d)[i],
                ) by {
                    if i < rest.len() {
                        assert(rest.push(d)[i] == rest[i]);
                    }
                }
            },
            None => {},
        }
    }
}

/// A hosts file never blocks the machine's own names: no rule read from it
/// is `localhost`, `localhost.localdomain` or `broadcasthost`, whatever
/// address the line gives them.
pub proof fn law_hosts_keep_local_names(content: Seq<char>)
    ensures
        forall|i: int|
            0 <= i < spec_parse_blocklist(content, BlocklistFormat::Hosts).len() ==> !is_local_host_name(
                #[trigger] spec_parse_blocklist(content, BlocklistFormat::Hosts)[i],
            ),
{
    lemma_hosts_entries_not_local(lines(content));
}

// ---------------------------------------------------------------------------
// Formats, file names and stored lists.
// ---------------------------------------------------------------------------

/// The format a blocklist URL announces: `hosts` in it means a hosts file,
/// `adblock` or `filter` an adblock list, anything else a domain list.
pub open spec fn spec_format_of_url(url: Seq<char>) -> BlocklistFormat {
    if has_infix(url, "hosts"@) {
        BlocklistFormat::Hosts
    } else if has_infix(url, "adblock"@) || has_infix(url, "filter"@) {
        BlocklistFormat::Adblock
    } else {
        BlocklistFormat::DomainList
    }
}

pub fn format_of_url(url: &str) -> (r: BlocklistFormat)
    ensures
        r == spec_format_of_url(url@),
{
    let u = chars_of(url);
    if contains_chars(&u, &lit("hosts")) {
        BlocklistFormat::Hosts
    } else if contains_chars(&u, &lit("adblock")) || contains_chars(&u, &lit("filter")) {
        BlocklistFormat::Adblock
    } else {
        BlocklistFormat::DomainList
    }
}

/// Whether a list may be downloaded from `url`: only over HTTPS, so that
/// the source is authenticated and the list cannot be altered on the way.
pub open spec fn spec_download_allowed(url: Seq<char>) -> bool {
    has_prefix(url, "https://"@)
}

pub fn download_allowed(url: &str) -> (r: bool)
    ensures
        r == spec_download_allowed(url@),
{
    starts_with(&chars_of(url), &lit("https://"))
}

/// The rules of a downloaded blocklist, read in the format its URL announces.
pub fn parse_downloaded(url: &str, body: &str) -> (r: Vec<String>)
    ensures
        views(r@) == spec_parse_blocklist(body@, spec_format_of_url(url@)),
{
    let format = format_of_url(url);
    parse_blocklist(body, &format)
}

pub open spec fn sanitize_char(c: char) -> char {
    if char_is_alphanumeric(c) || c == '-' || c == '_' {
        c
    } else {
        '_'
    }
}

pub open spec fn spec_sanitize_filename(name: Seq<char>) -> Seq<char> {
    name.map_values(|c: char| sanitize_char(c)) + ".txt"@
}

/// A file name for a list: letters, digits, `-` and `_` kept, every other
/// character replaced by `_`, and `.txt` appended.
pub fn sanitize_filename(name: &str) -> (r: String)
    ensures
        r@ == spec_sanitize_filename(name@),
{
    let chars = chars_of(name);
    let mut out: Vec<char> = Vec::new();
    let mut i: usize = 0;
    while i < chars.len()
        invariant
            i <= chars.len(),
            chars@ == name@,
            out@ == chars@.take(i as int).map_values(|c: char| sanitize_char(c)),
        decreases chars.len() - i,
    {
        let c = chars[i];
        let k = if is_alphanumeric(c) || c == '-' || c == '_' {
            c
        } else {
            '_'
        };
        out.push(k);
        assert(chars@.take(i + 1).map_values(|c: char| sanitize_char(c)) =~= chars@.take(
            i as int,
        ).map_values(|c: char| sanitize_char(c)).push(k));
        i += 1;
    }
    assert(chars@.take(chars.len() as int) =~= chars@);
    let mut s = string_of(&out);
    s.append(".txt");
    s
}

/// Calls `Path::join` and `to_string_lossy`. For a relative `name` made of
/// letters, digits, `-`, `_` and `.` (no separator, no drive) and holding a
/// character other than `.` (so neither `.` nor `..`, which a verbatim
/// Windows prefix would normalise away), the platform's joined path ends
/// with `name`; the separator in front of it is the platform's own and is
/// not stated.
#[verifier::external_body]
fn path_join(dir: &String, name: &String) -> (r: String)
    requires
        name@.len() > 0,
        exists|i: int| 0 <= i < name@.len() && name@[i] != '.',
        forall|i: int|
            0 <= i < name@.len() ==> {
                let c = #[trigger] name@[i];
                char_is_alphanumeric(c) || is_ascii_alphanumeric_char(c) || c == '-' || c == '_'
                    || c == '.'
            },
    ensures
        has_suffix(r@, name@),
{
    std::path::Path::new(dir).join(name).to_string_lossy().into_owned()
}

/// `domains` joined by line feeds, as a downloaded list is stored.
pub open spec fn spec_join_lines(domains: Seq<Seq<char>>) -> Seq<char>
    decreases domains.len(),
{
    if domains.len() == 0 {
        seq![]
    } else if domains.len() == 1 {
        domains[0]
    } else {
        spec_join_lines(domains.drop_last()) + seq!['\n'] + domains.last()
    }
}

pub fn join_lines(domains: &Vec<String>) -> (r: String)
    ensures
        r@ == spec_join_lines(views(domains@)),
{
    let mut out = String::new();
    let mut i: usize = 0;
    while i < domains.len()
        invariant
            i <= domains.len(),
            out@ == spec_join_lines(views(domains@).take(i as int)),
        decreases domains.len() - i,
    {
        let ghost vs = views(domains@);
        assert(vs.take(i + 1).drop_last() =~= vs.take(i as int));
        if i > 0 {
            out.append("\n");
            proof {
                reveal_strlit("\n");
            }
        } else {
            assert(vs.take(0) =~= Seq::<Seq<char>>::empty());
        }
        out.append(domains[i].as_str());
        i += 1;
    }
    assert(views(domains@).take(domains.len() as int) =~= views(domains@));
    out
}

// ---------------------------------------------------------------------------
// Registered lists.
// ---------------------------------------------------------------------------

/// Calls `directories::ProjectDirs::from(qualifier, organization,
/// application)` and takes its cache directory. What it returns depends on
/// the user's environment, so nothing is stated of it.
#[verifier::external_body]
fn project_cache_dir(qualifier: &str, organization: &str, application: &str) -> (r: Option<String>) {
    directories::ProjectDirs::from(qualifier, organization, application).map(
        |d| d.cache_dir().to_string_lossy().into_owned(),
    )
}

/// The non-empty lines of a text, in order.
pub open spec fn nonempty_lines(ls: Seq<Seq<char>>) -> Seq<Seq<char>>
    decreases ls.len(),
{
    if ls.len() == 0 {
        seq![]
    } else if ls.last().len() == 0 {
        nonempty_lines(ls.drop_last())
    } else {
        nonempty_lines(ls.drop_last()).push(ls.last())
    }
}

/// The names a stored copy holds: one per non-empty line, as
/// `join_lines` wrote them.
pub open spec fn spec_stored_names(content: Seq<char>) -> Seq<Seq<char>> {
    nonempty_lines(lines(content))
}

/// Reads a stored copy back: one name per non-empty line.
pub fn stored_names(content: &str) -> (r: Vec<String>)
    ensures
        views(r@) == spec_stored_names(content@),
{
    let chars = chars_of(content);
    let ls = lines_chars(&chars);
    let ghost lv = ls@.map_values(|v: Vec<char>| v@);
    let mut names: Vec<String> = Vec::new();
    let mut i: usize = 0;
    while i < ls.len()
        invariant
            i <= ls.len(),
            lv == ls@.map_values(|v: Vec<char>| v@),
            views(names@) == nonempty_lines(lv.take(i as int)),
        decreases ls.len() - i,
    {
        assert(lv.take(i + 1).drop_last() =~= lv.take(i as int));
        assert(lv.take(i + 1).last() == ls@[i as int]@);
        if ls[i].len() > 0 {
            let ghost before = views(names@);
            let s = string_of(&ls[i]);
            names.push(s);
            assert(views(names@) =~= before.push(ls@[i as int]@));
        }
        i += 1;
    }
    assert(lv.take(ls.len() as int) =~= lv);
    names
}

/// A name fit to be stored on a line of its own: not empty, no line feed,
/// and not ending in a carriage return.
pub open spec fn storable_name(d: Seq<char>) -> bool {
    d.len() > 0 && !d.contains('\n') && d.last() != '\r'
}

proof fn lemma_split_join(ds: Seq<Seq<char>>)
    requires
        ds.len() > 0,
        forall|i: int| 0 <= i < ds.len() ==> storable_name(#[trigger] ds[i]),
    ensures
        split(spec_join_lines(ds), '\n') == ds,
    decreases ds.len(),
{
    let last = ds.last();
    assert(storable_name(ds[ds.len() - 1]));
    if ds.len() == 1 {
        lemma_split_from_no_sep(last, '\n', seq![]);
        assert(seq![] + last =~= last);
        assert(seq![last] =~= ds);
    } else {
        let init = ds.drop_last();
        assert forall|i: int| 0 <= i < init.len() implies storable_name(#[trigger] init[i]) by {
            assert(init[i] == ds[i]);
        }
        lemma_split_join(init);
        lemma_split_from_concat(spec_join_lines(init), last, '\n', seq![]);
        lemma_split_from_no_sep(last, '\n', seq![]);
        assert(seq![] + last =~= last);
        assert(init + seq![last] =~= ds);
    }
}

proof fn lemma_nonempty_lines_all(ds: Seq<Seq<char>>)
    requires
        forall|i: int| 0 <= i < ds.len() ==> (#[trigger] ds[i]).len() > 0,
    ensures
        nonempty_lines(ds) == ds,
    decreases ds.len(),
{
    if ds.len() > 0 {
        let init = ds.drop_last();
        assert forall|i: int| 0 <= i < init.len() implies (#[trigger] init[i]).len() > 0 by {
            assert(init[i] == ds[i]);
        }
        lemma_nonempty_lines_all(init);
        assert(ds[ds.len() - 1].len() > 0);
        assert(init.push(ds.last()) =~= ds);
    }
}

proof fn lemma_strip_wildcard_ascii(x: Seq<char>)
    requires
        ascii_line(x),
    ensures
        ascii_line(strip_wildcard_prefixes(x)),
        ends_clean(x) ==> ends_clean(strip_wildcard_prefixes(x)),
    decreases x.len(),
{
    if starts_with_two(x, '*', '.') {
        lemma_subrange_ascii(x, 2, x.len() as int);
        assert(x.subrange(2, x.len() as int) =~= x.skip(2));
        if x.skip(2).len() > 0 {
            assert(x.skip(2).last() == x.last());
        }
        lemma_strip_wildcard_ascii(x.skip(2));
    }
}

proof fn lemma_storable(d: Seq<char>)
    requires
        ascii_line(d),
        ends_clean(d),
        d.len() > 0,
    ensures
        storable_name(d),
{
    assert(!d.contains('\n')) by {
        if d.contains('\n') {
            let i = choose|i: int| 0 <= i < d.len() && d[i] == '\n';
            assert(d[i] != '\n');
        }
    }
    assert(whitespace('\r'));
}

/// The rule an ASCII line yields, if any, can be stored on a line of its own.
proof fn lemma_line_entry_storable(raw: Seq<char>, format: BlocklistFormat)
    requires
        ascii_line(raw),
    ensures
        spec_line_entry(raw, format) matches Some(d) ==> storable_name(d),
{
    let line = trim(raw);
    lemma_trim_ascii(raw);
    if !is_skipped_line(line) {
        match format {
            BlocklistFormat::Hosts => {
                let parts = words(line);
                lemma_words_ascii(line);
                if parts.len() >= 2 {
                    assert(ascii_line(parts[1]) && parts[1].len() > 0 && ends_clean(parts[1]));
                    lemma_lowercase_ascii(parts[1]);
                    if spec_line_entry(raw, format) is Some {
                        lemma_storable(lowercase(parts[1]));
                    }
                }
            },
            BlocklistFormat::Adblock => {
                if starts_with_two(line, '|', '|') && !starts_with_two(line, '@', '@') {
                    lemma_subrange_ascii(line, 2, line.len() as int);
                    assert(line.subrange(2, line.len() as int) =~= line.skip(2));
                    let a = before_char(line.skip(2), '^');
                    lemma_before_char_ascii(line.skip(2), '^');
                    let b = before_char(a, '$');
                    lemma_before_char_ascii(a, '$');
                    let c = before_char(b, '/');
                    lemma_before_char_ascii(b, '/');
                    lemma_trim_ascii(c);
                    lemma_lowercase_ascii(trim(c));
                    if spec_line_entry(raw, format) is Some {
                        lemma_storable(lowercase(trim(c)));
                    }
                }
            },
            BlocklistFormat::DomainList => {
                let st = strip_wildcard_prefixes(line);
                lemma_strip_wildcard_ascii(line);
                lemma_lowercase_ascii(st);
                let d = lowercase(st);
                if spec_valid_domain(d) {
                    lemma_storable(d);
                    if starts_with_two(line, '*', '.') {
                        let w = seq!['*', '.'] + d;
                        assert(ascii_line(w)) by {
                            assert forall|i: int| 0 <= i < w.len() implies '\0' <= #[trigger] w[i] <= '\u{7f}' && w[i] != '\n' by {
                                if i >= 2 {
                                    assert(w[i] == d[i - 2]);
                                }
                            }
                        }
                        assert(w.last() == d.last());
                        lemma_storable(w);
                    }
                }
            },
        }
    }
}

proof fn lemma_entries_storable(ls: Seq<Seq<char>>, format: BlocklistFormat)
    requires
        forall|k: int| 0 <= k < ls.len() ==> ascii_line(#[trigger] ls[k]),
    ensures
        forall|i: int| 0 <= i < spec_entries(ls, format).len() ==> storable_name(#[trigger] spec_entries(ls, format)[i]),
    decreases ls.len(),
{
    if ls.len() > 0 {
        let init = ls.drop_last();
        assert forall|k: int| 0 <= k < init.len() implies ascii_line(#[trigger] init[k]) by {
            assert(init[k] == ls[k]);
        }
        lemma_entries_storable(init, format);
        assert(ascii_line(ls[ls.len() - 1]));
        lemma_line_entry_storable(ls.last(), format);
        let rest = spec_entries(init, format);
        match spec_line_entry(ls.last(), format) {
            Some(d) => {
                assert forall|i: int| 0 <= i < rest.push(d).len() implies storable_name(#[trigger] rest.push(d)[i]) by {
                    if i < rest.len() {
                        assert(rest.push(d)[i] == rest[i]);
                    }
                }
            },
            None => {},
        }
    }
}

/// An ASCII blocklist, once parsed and stored with `join_lines`, reads back
/// as the very rules it was parsed into: what `update_all` stores is what
/// `get_all_rules` gives back.
pub proof fn law_parsed_list_reads_back(content: Seq<char>, format: BlocklistFormat)
    requires
        vstd::utf8::is_ascii_chars(content),
    ensures
        spec_stored_names(spec_join_lines(spec_parse_blocklist(content, format)))
            == spec_parse_blocklist(content, format),
{
    lemma_lines_ascii(content);
    lemma_entries_storable(lines(content), format);
    law_stored_names_read_back(spec_parse_blocklist(content, format));
}

/// A list stored with `join_lines` reads back as the same names: storing
/// and reading a copy loses and adds nothing.
pub proof fn law_stored_names_read_back(ds: Seq<Seq<char>>)
    requires
        forall|i: int| 0 <= i < ds.len() ==> storable_name(#[trigger] ds[i]),
    ensures
        spec_stored_names(spec_join_lines(ds)) == ds,
{
    if ds.len() == 0 {
        assert(lines(seq![]) =~= Seq::<Seq<char>>::empty());
    } else {
        lemma_split_join(ds);
        let p = split(spec_join_lines(ds), '\n');
        assert(storable_name(ds[ds.len() - 1]));
        assert forall|i: int| 0 <= i < ds.len() implies lines(spec_join_lines(ds))[i] == ds[i] by {
            assert(storable_name(ds[i]));
        }
        assert(lines(spec_join_lines(ds)) =~= ds);
        assert forall|i: int| 0 <= i < ds.len() implies (#[trigger] ds[i]).len() > 0 by {
            assert(storable_name(ds[i]));
        }
        lemma_nonempty_lines_all(ds);
    }
}

/// The rules of the stored lists: for each registered list, in order, the
/// names its stored copy holds when it is enabled and the copy is at hand.
pub open spec fn spec_rules_of(
    lists: Seq<BlocklistMeta>,
    contents: Seq<Option<String>>,
) -> Seq<Seq<char>>
    decreases lists.len(),
{
    if lists.len() == 0 {
        seq![]
    } else {
        let rest = spec_rules_of(lists.drop_last(), contents);
        let i = lists.len() - 1;
        let meta = lists.last();
        if meta.source.enabled && contents[i] is Some {
            rest + spec_stored_names(contents[i]->0@)
        } else {
            rest
        }
    }
}

/// The registered blocklists and the directory their copies are kept in.
pub struct BlocklistManager {
    storage_dir: String,
    lists: Vec<BlocklistMeta>,
}

impl BlocklistManager {
    pub closed spec fn spec_storage_dir(&self) -> Seq<char> {
        self.storage_dir@
    }

    pub closed spec fn spec_lists(&self) -> Seq<BlocklistMeta> {
        self.lists@
    }

    /// A manager keeping its lists under the user's cache directory (or
    /// `./blocklists` when there is none), with no list registered.
    pub fn new() -> (r: Self)
        ensures
            has_suffix(r.spec_storage_dir(), "blocklists"@),
            r.spec_lists().len() == 0,
    {
        let name = String::from_str("blocklists");
        proof {
            reveal_strlit("blocklists");
        }
        assert(name@[0] == 'b');
        let dir = match project_cache_dir("com", "freeix", "FreeIX") {
            Some(d) => path_join(&d, &name),
            None => {
                let r = String::from_str("./blocklists");
                proof {
                    reveal_strlit("./blocklists");
                }
                assert(r@.skip(r@.len() - name@.len()) =~= name@);
                r
            },
        };
        BlocklistManager { storage_dir: dir, lists: Vec::new() }
    }

    /// A manager keeping its lists under `storage_dir`, with no list
    /// registered.
    pub fn with_storage_dir(storage_dir: String) -> (r: Self)
        ensures
            r.spec_storage_dir() == storage_dir@,
            r.spec_lists().len() == 0,
    {
        BlocklistManager { storage_dir, lists: Vec::new() }
    }

    /// Registers a source; its copy is kept in the storage directory under
    /// the sanitized name of the source.
    pub fn add_source(&mut self, source: BlocklistSource)
        ensures
            final(self).spec_storage_dir() == old(self).spec_storage_dir(),
            final(self).spec_lists().len() == old(self).spec_lists().len() + 1,
            final(self).spec_lists().drop_last() == old(self).spec_lists(),
            ({
                let meta = final(self).spec_lists().last();
                &&& meta.source == source
                &&& meta.domain_count == 0
                &&& meta.last_updated is None
                &&& has_suffix(meta.local_path@, spec_sanitize_filename(source.name@))
            }),
    {
        let file = sanitize_filename(source.name.as_str());
        proof {
            reveal_strlit(".txt");
            assert forall|i: int| 0 <= i < file@.len() implies {
                let c = #[trigger] file@[i];
                char_is_alphanumeric(c) || is_ascii_alphanumeric_char(c) || c == '-' || c == '_'
                    || c == '.'
            } by {
                let n = source.name@.len();
                if i < n {
                    assert(file@[i] == sanitize_char(source.name@[i]));
                } else {
                    assert(file@[i] == ".txt"@[i - n]);
                }
            }
        }
        assert(file@[file@.len() - 1] == 't') by {
            reveal_strlit(".txt");
            assert(file@[file@.len() - 1] == ".txt"@[3]);
        }
        let local_path = path_join(&self.storage_dir, &file);
        self.lists.push(
            BlocklistMeta { source, domain_count: 0, last_updated: None, local_path },
        );
        assert(self.lists@.drop_last() =~= old(self).lists@);
    }

    /// The registered lists, in the order they were added.
    pub fn lists(&self) -> (r: &Vec<BlocklistMeta>)
        ensures
            r@ == self.spec_lists(),
    {
        &self.lists
    }

    /// The positions of the lists an update downloads: the enabled ones.
    pub fn enabled_indices(&self) -> (r: Vec<usize>)
        ensures
            forall|k: int| 0 <= k < r.len() ==> #[trigger] r@[k] < self.spec_lists().len(),
            forall|k: int|
                0 <= k < r.len() ==> self.spec_lists()[#[trigger] r@[k] as int].source.enabled,
            forall|i: int|
                0 <= i < self.spec_lists().len() && self.spec_lists()[i].source.enabled ==> r@.contains(
                    i as usize,
                ),
            forall|a: int, b: int| 0 <= a < b < r.len() ==> r@[a] < r@[b],
    {
        let mut r: Vec<usize> = Vec::new();
        let mut i: usize = 0;
        while i < self.lists.len()
            invariant
                i <= self.lists.len(),
                forall|k: int| 0 <= k < r.len() ==> #[trigger] r@[k] < i,
                forall|k: int| 0 <= k < r.len() ==> self.lists@[#[trigger] r@[k] as int].source.enabled,
                forall|j: int|
                    0 <= j < i && self.lists@[j].source.enabled ==> r@.contains(j as usize),
                forall|a: int, b: int| 0 <= a < b < r.len() ==> r@[a] < r@[b],
            decreases self.lists.len() - i,
        {
            if self.lists[i].source.enabled {
                let ghost before = r@;
                r.push(i);
                assert forall|j: int|
                    0 <= j < i + 1 && self.lists@[j].source.enabled implies r@.contains(
                    j as usize,
                ) by {
                    if j == i {
                        assert(r@[r.len() - 1] == i);
                    } else {
                        let k = choose|k: int| 0 <= k < before.len() && before[k] == j as usize;
                        assert(r@[k] == j as usize);
                    }
                }
            }
            i += 1;
        }
        r
    }

    /// Records a successful download of the list at `index`: its rule count
    /// and the time, in seconds since the Unix epoch.
    pub fn record_update(&mut self, index: usize, count: usize, now_secs: u64)
        requires
            index < old(self).spec_lists().len(),
        ensures
            final(self).spec_storage_dir() == old(self).spec_storage_dir(),
            final(self).spec_lists().len() == old(self).spec_lists().len(),
            forall|k: int|
                0 <= k < old(self).spec_lists().len() && k != index ==> final(self).spec_lists()[k]
                    == old(self).spec_lists()[k],
            final(self).spec_lists()[index as int].source == old(self).spec_lists()[index as int].source,
            final(self).spec_lists()[index as int].local_path == old(self).spec_lists()[index as int].local_path,
            final(self).spec_lists()[index as int].domain_count == count,
            final(self).spec_lists()[index as int].last_updated == Some(now_secs),
    {
        let mut lists = Vec::new();
        std::mem::swap(&mut lists, &mut self.lists);
        let ghost before = lists@;
        let mut meta = lists.remove(index);
        meta.domain_count = count;
        meta.last_updated = Some(now_secs);
        lists.insert(index, meta);
        assert forall|k: int| 0 <= k < before.len() && k != index implies lists@[k] == before[k] by {
            if k < index {
            } else {
            }
        }
        self.lists = lists;
    }

    /// The rules of the stored copies, one name per line as they were
    /// written: `contents[i]` is the content of the copy of list `i` when it
    /// could be read. Disabled lists are left out.
    pub fn rules_from_contents(&self, contents: &Vec<Option<String>>) -> (r: Vec<String>)
        requires
            contents.len() == self.spec_lists().len(),
        ensures
            views(r@) == spec_rules_of(self.spec_lists(), contents@),
    {
        let mut rules: Vec<String> = Vec::new();
        let mut i: usize = 0;
        while i < self.lists.len()
            invariant
                i <= self.lists.len(),
                contents.len() == self.lists.len(),
                views(rules@) == spec_rules_of(self.lists@.take(i as int), contents@),
            decreases self.lists.len() - i,
        {
            assert(self.lists@.take(i + 1).drop_last() =~= self.lists@.take(i as int));
            let meta = &self.lists[i];
            match &contents[i] {
                Some(text) => {
                    if meta.source.enabled {
                        let parsed = stored_names(text.as_str());
                        let ghost before = views(rules@);
                        let mut k: usize = 0;
                        while k < parsed.len()
                            invariant
                                k <= parsed.len(),
                                views(rules@) == before + views(parsed@).take(k as int),
                            decreases parsed.len() - k,
                        {
                            let s = parsed[k].clone();
                            let ghost b2 = views(rules@);
                            rules.push(s);
                            assert(views(rules@) =~= b2.push(s@));
                            assert(views(parsed@).take(k + 1) =~= views(parsed@).take(k as int).push(
                                parsed@[k as int]@,
                            ));
                            assert(before + views(parsed@).take(k + 1) =~= (before + views(
                                parsed@,
                            ).take(k as int)).push(parsed@[k as int]@));
                            k += 1;
                        }
                        assert(views(parsed@).take(parsed.len() as int) =~= views(parsed@));
                    }
                },
                None => {},
            }
            i += 1;
        }
        assert(self.lists@.take(self.lists.len() as int) =~= self.lists@);
        rules
    }
}

} // verus!
