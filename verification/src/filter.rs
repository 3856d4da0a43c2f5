//! The domain filter: exact, wildcard and regex block rules, and exact and
//! wildcard allow rules, where an allow rule always wins over a block rule.

use vstd::prelude::*;
use vstd::hash_set::StringHashSet;

use regex::RegexSet;

use crate::blocklists::{content_lines, is_skipped_line, starts_with_two};
use crate::regexes::{
    build_regex_set, check_regex, first_match, first_regex_match, lemma_first_match_is_least,
    regex_compiles, regex_set_builds, regex_set_patterns,
};
use crate::text::{
    chars_of, char_views, concat_chars, ends_with, eq_chars, has_suffix, slice_chars,
    ascii_lower, lemma_lowercase_ascii_text, lowercase, str_to_lowercase, string_of, to_lowercase, trim, trim_chars, views,
};

verus! {

broadcast use vstd::string::group_string_axioms, vstd::hash_set::group_hash_set_axioms;

/// Why rules could not be loaded.
#[derive(Debug)]
pub enum FilterError {
    InvalidRegex(regex::Error),
    InvalidRule(String),
}

/// What the filter decides for a domain, with the rule that decided it.
#[derive(Debug, Clone)]
pub enum FilterResult {
    Blocked { rule: String },
    Allowed { rule: String },
    NotMatched,
}

/// The mathematical form of a [`FilterResult`].
pub enum Verdict {
    Blocked(Seq<char>),
    Allowed(Seq<char>),
    NotMatched,
}

impl View for FilterResult {
    type V = Verdict;

    open spec fn view(&self) -> Verdict {
        match self {
            FilterResult::Blocked { rule } => Verdict::Blocked(rule@),
            FilterResult::Allowed { rule } => Verdict::Allowed(rule@),
            FilterResult::NotMatched => Verdict::NotMatched,
        }
    }
}

/// A parsed rule.
#[derive(Debug, Clone, PartialEq)]
pub enum RuleType {
    ExactBlock(String),
    /// The pattern without its leading `*.`.
    WildcardBlock(String),
    RegexBlock(String),
    ExactAllow(String),
    WildcardAllow(String),
}

/// The mathematical form of a [`RuleType`].
pub enum RuleSpec {
    ExactBlock(Seq<char>),
    WildcardBlock(Seq<char>),
    RegexBlock(Seq<char>),
    ExactAllow(Seq<char>),
    WildcardAllow(Seq<char>),
}

impl View for RuleType {
    type V = RuleSpec;

    open spec fn view(&self) -> RuleSpec {
        match self {
            RuleType::ExactBlock(s) => RuleSpec::ExactBlock(s@),
            RuleType::WildcardBlock(s) => RuleSpec::WildcardBlock(s@),
            RuleType::RegexBlock(s) => RuleSpec::RegexBlock(s@),
            RuleType::ExactAllow(s) => RuleSpec::ExactAllow(s@),
            RuleType::WildcardAllow(s) => RuleSpec::WildcardAllow(s@),
        }
    }
}

/// A single rule for dynamic addition.
#[derive(Debug, Clone)]
pub struct Rule {
    pub pattern: String,
    pub rule_type: RuleType2,
}

#[derive(Debug, Clone, Copy, PartialEq, Eq, Structural)]
pub enum RuleType2 {
    Block,
    Allow,
}

/// The filter with an exact rule of the given kind for `d` added.
pub open spec fn spec_add_exact(m: FilterModel, d: Seq<char>, kind: RuleType2) -> FilterModel {
    match kind {
        RuleType2::Block => FilterModel { exact_blocks: m.exact_blocks.insert(d), ..m },
        RuleType2::Allow => FilterModel { exact_allows: m.exact_allows.insert(d), ..m },
    }
}

/// The filter with the exact rule of the given kind for `d` taken out.
pub open spec fn spec_remove_exact(m: FilterModel, d: Seq<char>, kind: RuleType2) -> FilterModel {
    match kind {
        RuleType2::Block => FilterModel { exact_blocks: m.exact_blocks.remove(d), ..m },
        RuleType2::Allow => FilterModel { exact_allows: m.exact_allows.remove(d), ..m },
    }
}

/// The rule sets of a filter.
pub ghost struct FilterModel {
    pub exact_blocks: Set<Seq<char>>,
    pub exact_allows: Set<Seq<char>>,
    pub wildcard_blocks: Seq<Seq<char>>,
    pub wildcard_allows: Seq<Seq<char>>,
    pub regex_patterns: Seq<Seq<char>>,
}

pub open spec fn empty_model() -> FilterModel {
    FilterModel {
        exact_blocks: Set::empty(),
        exact_allows: Set::empty(),
        wildcard_blocks: seq![],
        wildcard_allows: seq![],
        regex_patterns: seq![],
    }
}

// ---------------------------------------------------------------------------
// Matching.
// ---------------------------------------------------------------------------

/// `domain` is `pattern` itself or a subdomain of it at any depth.
pub open spec fn wildcard_matches(domain: Seq<char>, pattern: Seq<char>) -> bool {
    domain == pattern || has_suffix(domain, seq!['.'] + pattern)
}

/// The first pattern, from index `i` on, that `domain` matches.
pub open spec fn first_wildcard_from(patterns: Seq<Seq<char>>, domain: Seq<char>, i: int) -> Option<
    int,
>
    decreases patterns.len() - i,
{
    if i < 0 || i >= patterns.len() {
        None
    } else if wildcard_matches(domain, patterns[i]) {
        Some(i)
    } else {
        first_wildcard_from(patterns, domain, i + 1)
    }
}

pub open spec fn first_wildcard(patterns: Seq<Seq<char>>, domain: Seq<char>) -> Option<int> {
    first_wildcard_from(patterns, domain, 0)
}

/// The decision for an already lowercased domain: exact allow, then
/// wildcard allow, then exact block, then wildcard block, then regex block,
/// each with the rule text that decided it.
pub open spec fn spec_decide(m: FilterModel, d: Seq<char>) -> Verdict {
    if m.exact_allows.contains(d) {
        Verdict::Allowed(seq!['@', '@'] + d)
    } else if first_wildcard(m.wildcard_allows, d) is Some {
        Verdict::Allowed(
            seq!['@', '@', '*', '.'] + m.wildcard_allows[first_wildcard(m.wildcard_allows, d)->0],
        )
    } else if m.exact_blocks.contains(d) {
        Verdict::Blocked(d)
    } else if first_wildcard(m.wildcard_blocks, d) is Some {
        Verdict::Blocked(seq!['*', '.'] + m.wildcard_blocks[first_wildcard(m.wildcard_blocks, d)->0])
    } else if first_regex_match(m.regex_patterns, d) is Some {
        Verdict::Blocked(m.regex_patterns[first_regex_match(m.regex_patterns, d)->0])
    } else {
        Verdict::NotMatched
    }
}

/// Some allow rule covers the lowercased domain `d`.
pub open spec fn is_allowed_by(m: FilterModel, d: Seq<char>) -> bool {
    m.exact_allows.contains(d) || first_wildcard(m.wildcard_allows, d) is Some
}

// ---------------------------------------------------------------------------
// Rule parsing.
// ---------------------------------------------------------------------------

/// The rule a trimmed rule line denotes; `None` for a regex that does not
/// compile. `@@` marks an allow rule, `/.../` a regex, `*.` a wildcard.
pub open spec fn spec_parse_rule(line: Seq<char>) -> Option<RuleSpec> {
    let allow = starts_with_two(line, '@', '@');
    let rule = if allow {
        line.skip(2)
    } else {
        line
    };
    if rule.len() >= 3 && rule[0] == '/' && rule.last() == '/' {
        let pattern = rule.subrange(1, rule.len() - 1);
        if regex_compiles(pattern) {
            Some(RuleSpec::RegexBlock(pattern))
        } else {
            None
        }
    } else if starts_with_two(rule, '*', '.') {
        let domain = lowercase(rule.skip(2));
        if allow {
            Some(RuleSpec::WildcardAllow(domain))
        } else {
            Some(RuleSpec::WildcardBlock(domain))
        }
    } else {
        let domain = lowercase(rule);
        if allow {
            Some(RuleSpec::ExactAllow(domain))
        } else {
            Some(RuleSpec::ExactBlock(domain))
        }
    }
}

/// The rules that a list of rule lines denotes, skipping empty lines and
/// `#` / `!` comments; `None` when some line is a regex that does not
/// compile.
pub open spec fn spec_parse_rules(lines: Seq<Seq<char>>) -> Option<Seq<RuleSpec>>
    decreases lines.len(),
{
    if lines.len() == 0 {
        Some(seq![])
    } else {
        match spec_parse_rules(lines.drop_last()) {
            None => None,
            Some(rs) => {
                let t = trim(lines.last());
                if is_skipped_line(t) {
                    Some(rs)
                } else {
                    match spec_parse_rule(t) {
                        None => None,
                        Some(r) => Some(rs.push(r)),
                    }
                }
            },
        }
    }
}

pub open spec fn apply_rule(m: FilterModel, r: RuleSpec) -> FilterModel {
    match r {
        RuleSpec::ExactBlock(d) => FilterModel { exact_blocks: m.exact_blocks.insert(d), ..m },
        RuleSpec::WildcardBlock(d) => FilterModel {
            wildcard_blocks: m.wildcard_blocks.push(d),
            ..m
        },
        RuleSpec::RegexBlock(p) => FilterModel { regex_patterns: m.regex_patterns.push(p), ..m },
        RuleSpec::ExactAllow(d) => FilterModel { exact_allows: m.exact_allows.insert(d), ..m },
        RuleSpec::WildcardAllow(d) => FilterModel {
            wildcard_allows: m.wildcard_allows.push(d),
            ..m
        },
    }
}

/// `m` with the rules `rs` added in order.
pub open spec fn apply_rules(m: FilterModel, rs: Seq<RuleSpec>) -> FilterModel
    decreases rs.len(),
{
    if rs.len() == 0 {
        m
    } else {
        apply_rule(apply_rules(m, rs.drop_last()), rs.last())
    }
}

/// The regex patterns among `rs`, in order.
pub open spec fn regex_of(rs: Seq<RuleSpec>) -> Seq<Seq<char>>
    decreases rs.len(),
{
    if rs.len() == 0 {
        seq![]
    } else {
        match rs.last() {
            RuleSpec::RegexBlock(p) => regex_of(rs.drop_last()).push(p),
            _ => regex_of(rs.drop_last()),
        }
    }
}

pub proof fn lemma_apply_rules_regex(m: FilterModel, rs: Seq<RuleSpec>)
    ensures
        apply_rules(m, rs).regex_patterns == m.regex_patterns + regex_of(rs),
    decreases rs.len(),
{
    if rs.len() > 0 {
        lemma_apply_rules_regex(m, rs.drop_last());
        match rs.last() {
            RuleSpec::RegexBlock(p) => {
                assert(m.regex_patterns + regex_of(rs.drop_last()).push(p) =~= (m.regex_patterns
                    + regex_of(rs.drop_last())).push(p));
            },
            _ => {},
        }
    } else {
        assert(m.regex_patterns + Seq::<Seq<char>>::empty() =~= m.regex_patterns);
    }
}

/// Whether the regex patterns of a model can be compiled into one set (an
/// empty list needs no set).
pub open spec fn regexes_build(m: FilterModel) -> bool {
    m.regex_patterns.len() == 0 || regex_set_builds(m.regex_patterns)
}

pub open spec fn rule_views(rules: Seq<&str>) -> Seq<Seq<char>> {
    rules.map_values(|s: &str| s@)
}

// ---------------------------------------------------------------------------
// The engine.
// ---------------------------------------------------------------------------

/// A set of filtering rules.
pub struct FilterEngine {
    exact_blocks: StringHashSet,
    exact_allows: StringHashSet,
    wildcard_blocks: Vec<Vec<char>>,
    wildcard_allows: Vec<Vec<char>>,
    regex_blocks: Option<RegexSet>,
    regex_patterns: Vec<String>,
}

impl View for FilterEngine {
    type V = FilterModel;

    closed spec fn view(&self) -> FilterModel {
        FilterModel {
            exact_blocks: self.exact_blocks@,
            exact_allows: self.exact_allows@,
            wildcard_blocks: char_views(self.wildcard_blocks@),
            wildcard_allows: char_views(self.wildcard_allows@),
            regex_patterns: views(self.regex_patterns@),
        }
    }
}

/// Whether `domain` is `pattern` or a subdomain of it.
pub fn domain_matches_wildcard(domain: &str, pattern: &str) -> (r: bool)
    ensures
        r == wildcard_matches(domain@, pattern@),
{
    wildcard_match_chars(&chars_of(domain), &chars_of(pattern))
}

fn wildcard_match_chars(domain: &Vec<char>, pattern: &Vec<char>) -> (r: bool)
    ensures
        r == wildcard_matches(domain@, pattern@),
{
    if eq_chars(domain, pattern) {
        return true;
    }
    let dot = vec!['.'];
    let suffix = concat_chars(&dot, pattern);
    assert(dot@ =~= seq!['.']);
    ends_with(domain, &suffix)
}

fn find_wildcard(patterns: &Vec<Vec<char>>, domain: &Vec<char>) -> (r: Option<usize>)
    ensures
        match r {
            Some(i) => i < patterns.len() && first_wildcard(char_views(patterns@), domain@) == Some(
                i as int,
            ),
            None => first_wildcard(char_views(patterns@), domain@) is None,
        },
{
    let ghost ps = char_views(patterns@);
    let mut i: usize = 0;
    while i < patterns.len()
        invariant
            i <= patterns.len(),
            ps == char_views(patterns@),
            first_wildcard(ps, domain@) == first_wildcard_from(ps, domain@, i as int),
        decreases patterns.len() - i,
    {
        assert(ps[i as int] == patterns@[i as int]@);
        if wildcard_match_chars(domain, &patterns[i]) {
            return Some(i);
        }
        i += 1;
    }
    None
}

fn copy_strings(v: &Vec<String>) -> (r: Vec<String>)
    ensures
        views(r@) == views(v@),
{
    let mut r: Vec<String> = Vec::new();
    let mut i: usize = 0;
    while i < v.len()
        invariant
            i <= v.len(),
            views(r@) == views(v@).take(i as int),
        decreases v.len() - i,
    {
        let s = v[i].clone();
        let ghost before = views(r@);
        r.push(s);
        assert(views(r@) =~= before.push(s@));
        assert(views(v@).take(i + 1) =~= views(v@).take(i as int).push(v@[i as int]@));
        i += 1;
    }
    assert(views(v@).take(v.len() as int) =~= views(v@));
    r
}

impl FilterEngine {
    #[verifier::type_invariant]
    spec fn regexes_compiled(self) -> bool {
        &&& (self.regex_blocks is Some <==> self.regex_patterns@.len() > 0)
        &&& (self.regex_blocks matches Some(s) ==> regex_set_patterns(s) == views(
            self.regex_patterns@,
        ))
        &&& (self.regex_patterns@.len() > 0 ==> regex_set_builds(views(self.regex_patterns@)))
    }

    /// An engine with no rules.
    pub fn new() -> (r: Self)
        ensures
            r@ == empty_model(),
    {
        let r = FilterEngine {
            exact_blocks: StringHashSet::new(),
            exact_allows: StringHashSet::new(),
            wildcard_blocks: Vec::new(),
            wildcard_allows: Vec::new(),
            regex_blocks: None,
            regex_patterns: Vec::new(),
        };
        assert(char_views(r.wildcard_blocks@) =~= Seq::<Seq<char>>::empty());
        assert(char_views(r.wildcard_allows@) =~= Seq::<Seq<char>>::empty());
        assert(views(r.regex_patterns@) =~= Seq::<Seq<char>>::empty());
        r
    }

    /// Parses one trimmed rule line.
    fn parse_rule(line: &Vec<char>) -> (r: Result<RuleType, FilterError>)
        ensures
            match spec_parse_rule(line@) {
                Some(rule) => r matches Ok(t) && t@ == rule,
                None => r matches Err(FilterError::InvalidRegex(_)),
            },
    {
        let allow = line.len() >= 2 && line[0] == '@' && line[1] == '@';
        let rule = if allow {
            slice_chars(line, 2, line.len())
        } else {
            slice_chars(line, 0, line.len())
        };
        assert(allow ==> rule@ =~= line@.skip(2));
        assert(!allow ==> rule@ =~= line@);
        let n = rule.len();
        if n >= 3 && rule[0] == '/' && rule[n - 1] == '/' {
            let pattern = string_of(&slice_chars(&rule, 1, n - 1));
            match check_regex(pattern.as_str()) {
                Ok(()) => {
                    return Ok(RuleType::RegexBlock(pattern));
                },
                Err(e) => {
                    return Err(FilterError::InvalidRegex(e));
                },
            }
        }
        if n >= 2 && rule[0] == '*' && rule[1] == '.' {
            let rest = slice_chars(&rule, 2, n);
            assert(rest@ =~= rule@.skip(2));
            let domain = string_of(&to_lowercase(&rest));
            if allow {
                Ok(RuleType::WildcardAllow(domain))
            } else {
                Ok(RuleType::WildcardBlock(domain))
            }
        } else {
            let domain = string_of(&to_lowercase(&rule));
            if allow {
                Ok(RuleType::ExactAllow(domain))
            } else {
                Ok(RuleType::ExactBlock(domain))
            }
        }
    }

    /// Parses every rule line, stopping at the first regex that does not
    /// compile.
    fn parse_all(rules: &Vec<&str>) -> (r: Result<Vec<RuleType>, FilterError>)
        ensures
            match spec_parse_rules(rule_views(rules@)) {
                Some(rs) => r matches Ok(v) && v@.map_values(|t: RuleType| t@) == rs,
                None => r matches Err(FilterError::InvalidRegex(_)),
            },
    {
        let ghost lv = rule_views(rules@);
        let mut out: Vec<RuleType> = Vec::new();
        let mut i: usize = 0;
        while i < rules.len()
            invariant
                i <= rules.len(),
                lv == rule_views(rules@),
                spec_parse_rules(lv.take(i as int)) == Some(
                    out@.map_values(|t: RuleType| t@),
                ),
            decreases rules.len() - i,
        {
            assert(lv.take(i + 1).drop_last() =~= lv.take(i as int));
            assert(lv.take(i + 1).last() == rules@[i as int]@);
            let line = trim_chars(&chars_of(rules[i]));
            if line.len() == 0 || line[0] == '#' || line[0] == '!' {
            } else {
                match Self::parse_rule(&line) {
                    Ok(t) => {
                        let ghost before = out@.map_values(|t: RuleType| t@);
                        out.push(t);
                        assert(out@.map_values(|t: RuleType| t@) =~= before.push(t@));
                    },
                    Err(e) => {
                        proof {
                            lemma_parse_rules_error_sticks(lv, (i + 1) as int);
                        }
                        return Err(e);
                    },
                }
            }
            i += 1;
        }
        assert(lv.take(rules.len() as int) =~= lv);
        Ok(out)
    }

    /// `base` with the parsed rules added; on a regex set that does not
    /// build, `base` is handed back unchanged with the error.
    fn install(base: FilterEngine, parsed: Vec<RuleType>) -> (r: Result<
        FilterEngine,
        (FilterEngine, FilterError),
    >)
        ensures
            ({
                let m = apply_rules(base@, parsed@.map_values(|t: RuleType| t@));
                match r {
                    Ok(e) => e@ == m && regexes_build(m),
                    Err((b, err)) => b@ == base@ && !regexes_build(m)
                        && err is InvalidRegex,
                }
            }),
    {
        proof {
            use_type_invariant(&base);
        }
        let ghost rs = parsed@.map_values(|t: RuleType| t@);
        let ghost bm = base@;
        let FilterEngine {
            mut exact_blocks,
            mut exact_allows,
            mut wildcard_blocks,
            mut wildcard_allows,
            regex_blocks,
            regex_patterns,
        } = base;
        // First the regex patterns, so that a failure leaves everything as it was.
        let mut new_patterns = copy_strings(&regex_patterns);
        let mut added_regex = false;
        let mut i: usize = 0;
        while i < parsed.len()
            invariant
                i <= parsed.len(),
                rs == parsed@.map_values(|t: RuleType| t@),
                views(new_patterns@) == views(regex_patterns@) + regex_of(rs.take(i as int)),
                added_regex ==> regex_of(rs.take(i as int)).len() > 0,
                !added_regex ==> regex_of(rs.take(i as int)).len() == 0,
            decreases parsed.len() - i,
        {
            assert(rs.take(i + 1).drop_last() =~= rs.take(i as int));
            assert(rs.take(i + 1).last() == parsed@[i as int]@);
            match &parsed[i] {
                RuleType::RegexBlock(p) => {
                    let ghost before = views(new_patterns@);
                    new_patterns.push(p.clone());
                    assert(views(new_patterns@) =~= before.push(p@));
                    added_regex = true;
                },
                _ => {},
            }
            i += 1;
        }
        assert(rs.take(parsed.len() as int) =~= rs);
        proof {
            lemma_apply_rules_regex(bm, rs);
        }
        let new_set: Option<RegexSet> = if new_patterns.len() == 0 {
            None
        } else if !added_regex && regex_blocks.is_some() {
            // The same patterns as before: the set they built still stands.
            assert(views(new_patterns@) =~= views(regex_patterns@));
            regex_blocks
        } else {
            match build_regex_set(&new_patterns) {
                Ok(s) => Some(s),
                Err(e) => {
                    let b = FilterEngine {
                        exact_blocks,
                        exact_allows,
                        wildcard_blocks,
                        wildcard_allows,
                        regex_blocks,
                        regex_patterns,
                    };
                    return Err((b, FilterError::InvalidRegex(e)));
                },
            }
        };
        let mut j: usize = 0;
        while j < parsed.len()
            invariant
                j <= parsed.len(),
                rs == parsed@.map_values(|t: RuleType| t@),
                exact_blocks@ == apply_rules(bm, rs.take(j as int)).exact_blocks,
                exact_allows@ == apply_rules(bm, rs.take(j as int)).exact_allows,
                char_views(wildcard_blocks@) == apply_rules(bm, rs.take(j as int)).wildcard_blocks,
                char_views(wildcard_allows@) == apply_rules(bm, rs.take(j as int)).wildcard_allows,
            decreases parsed.len() - j,
        {
            assert(rs.take(j + 1).drop_last() =~= rs.take(j as int));
            assert(rs.take(j + 1).last() == parsed@[j as int]@);
            match &parsed[j] {
                RuleType::ExactBlock(d) => {
                    exact_blocks.insert(d.clone());
                },
                RuleType::WildcardBlock(d) => {
                    let ghost before = char_views(wildcard_blocks@);
                    let c = chars_of(d.as_str());
                    wildcard_blocks.push(c);
                    assert(char_views(wildcard_blocks@) =~= before.push(d@));
                },
                RuleType::RegexBlock(_) => {},
                RuleType::ExactAllow(d) => {
                    exact_allows.insert(d.clone());
                },
                RuleType::WildcardAllow(d) => {
                    let ghost before = char_views(wildcard_allows@);
                    let c = chars_of(d.as_str());
                    wildcard_allows.push(c);
                    assert(char_views(wildcard_allows@) =~= before.push(d@));
                },
            }
            j += 1;
        }
        let e = FilterEngine {
            exact_blocks,
            exact_allows,
            wildcard_blocks,
            wildcard_allows,
            regex_blocks: new_set,
            regex_patterns: new_patterns,
        };
        assert(e@ == apply_rules(bm, rs));
        Ok(e)
    }

    /// Replaces all rules by those of `rules`. Empty lines and `#` / `!`
    /// comments are skipped; `@@` marks an allow rule, `*.` a wildcard and
    /// `/.../` a regex; domains are lowercased. Returns how many rules were
    /// loaded. On a regex that does not compile, nothing changes.
    pub fn load_rules(&mut self, rules: Vec<&str>) -> (r: Result<usize, FilterError>)
        ensures
            match spec_parse_rules(rule_views(rules@)) {
                None => r matches Err(FilterError::InvalidRegex(_)) && final(self)@ == old(self)@,
                Some(rs) => {
                    let m = apply_rules(empty_model(), rs);
                    if regexes_build(m) {
                        r matches Ok(n) && n == rs.len() && final(self)@ == m
                    } else {
                        r matches Err(FilterError::InvalidRegex(_)) && final(self)@ == old(self)@
                    }
                },
            },
    {
        let parsed = match Self::parse_all(&rules) {
            Ok(p) => p,
            Err(e) => {
                return Err(e);
            },
        };
        let n = parsed.len();
        match Self::install(FilterEngine::new(), parsed) {
            Ok(e) => {
                *self = e;
                Ok(n)
            },
            Err((_, err)) => Err(err),
        }
    }

    /// Adds the rules of `rules` to the current ones, read as in
    /// [`FilterEngine::load_rules`]. On a regex that does not compile,
    /// nothing changes.
    pub fn add_rules(&mut self, rules: Vec<&str>) -> (r: Result<usize, FilterError>)
        ensures
            match spec_parse_rules(rule_views(rules@)) {
                None => r matches Err(FilterError::InvalidRegex(_)) && final(self)@ == old(self)@,
                Some(rs) => {
                    let m = apply_rules(old(self)@, rs);
                    if regexes_build(m) {
                        r matches Ok(n) && n == rs.len() && final(self)@ == m
                    } else {
                        r matches Err(FilterError::InvalidRegex(_)) && final(self)@ == old(self)@
                    }
                },
            },
    {
        let parsed = match Self::parse_all(&rules) {
            Ok(p) => p,
            Err(e) => {
                return Err(e);
            },
        };
        let n = parsed.len();
        let mut current = FilterEngine::new();
        std::mem::swap(&mut current, self);
        match Self::install(current, parsed) {
            Ok(e) => {
                *self = e;
                Ok(n)
            },
            Err((b, err)) => {
                *self = b;
                Err(err)
            },
        }
    }

    /// Decides a domain, compared in lowercase: allow rules win over block
    /// rules, exact rules are tried before wildcard rules, and regex rules
    /// come last.
    pub fn is_blocked(&self, domain: &str) -> (r: FilterResult)
        ensures
            r@ == spec_decide(self@, str_to_lowercase(domain@)),
    {
        proof {
            use_type_invariant(self);
        }
        let d = to_lowercase(&chars_of(domain));
        let ds = string_of(&d);
        if self.exact_allows.contains(ds.as_str()) {
            let at = vec!['@', '@'];
            assert(at@ =~= seq!['@', '@']);
            return FilterResult::Allowed { rule: string_of(&concat_chars(&at, &d)) };
        }
        match find_wildcard(&self.wildcard_allows, &d) {
            Some(i) => {
                let at = vec!['@', '@', '*', '.'];
                assert(at@ =~= seq!['@', '@', '*', '.']);
                assert(self.wildcard_allows@[i as int]@ == self@.wildcard_allows[i as int]);
                return FilterResult::Allowed {
                    rule: string_of(&concat_chars(&at, &self.wildcard_allows[i])),
                };
            },
            None => {},
        }
        if self.exact_blocks.contains(ds.as_str()) {
            return FilterResult::Blocked { rule: ds };
        }
        match find_wildcard(&self.wildcard_blocks, &d) {
            Some(i) => {
                let star = vec!['*', '.'];
                assert(star@ =~= seq!['*', '.']);
                assert(self.wildcard_blocks@[i as int]@ == self@.wildcard_blocks[i as int]);
                return FilterResult::Blocked {
                    rule: string_of(&concat_chars(&star, &self.wildcard_blocks[i])),
                };
            },
            None => {},
        }
        match &self.regex_blocks {
            Some(set) => {
                let found = first_match(set, ds.as_str());
                proof {
                    lemma_first_match_is_least(views(self.regex_patterns@), d@, found);
                }
                match found {
                    Some(i) => {
                        return FilterResult::Blocked { rule: self.regex_patterns[i].clone() };
                    },
                    None => {},
                }
            },
            None => {
                assert(views(self.regex_patterns@).len() == 0);
            },
        }
        FilterResult::NotMatched
    }

    /// The number of rules held (a rule in two lists counts twice; exact
    /// rules are counted once per distinct domain); the count saturates at
    /// `usize::MAX`.
    pub fn rule_count(&self) -> (r: usize)
        ensures
            r as int == spec_rule_count(self@),
    {
        let a = self.exact_blocks.len();
        let b = self.exact_allows.len();
        let c = self.wildcard_blocks.len();
        let d = self.wildcard_allows.len();
        let e = self.regex_patterns.len();
        a.saturating_add(b).saturating_add(c).saturating_add(d).saturating_add(e)
    }

    /// Drops every rule.
    pub fn clear(&mut self)
        ensures
            final(self)@ == empty_model(),
    {
        *self = FilterEngine::new();
    }

    /// Adds one exact rule, its pattern taken as it is.
    pub fn add_rule(&mut self, rule: Rule)
        ensures
            final(self)@ == spec_add_exact(old(self)@, rule.pattern@, rule.rule_type),
    {
        let mut current = FilterEngine::new();
        std::mem::swap(&mut current, self);
        proof {
            use_type_invariant(&current);
        }
        let FilterEngine {
            mut exact_blocks,
            mut exact_allows,
            wildcard_blocks,
            wildcard_allows,
            regex_blocks,
            regex_patterns,
        } = current;
        match rule.rule_type {
            RuleType2::Block => {
                exact_blocks.insert(rule.pattern);
            },
            RuleType2::Allow => {
                exact_allows.insert(rule.pattern);
            },
        }
        *self = FilterEngine {
            exact_blocks,
            exact_allows,
            wildcard_blocks,
            wildcard_allows,
            regex_blocks,
            regex_patterns,
        };
    }

    /// Removes `domain`, taken as it is, from the exact rules of one kind
    /// only: block rules for `Block`, allow rules for `Allow`.
    pub fn remove_exact_rule(&mut self, domain: &str, rule_type: RuleType2)
        ensures
            final(self)@ == spec_remove_exact(old(self)@, domain@, rule_type),
    {
        let mut current = FilterEngine::new();
        std::mem::swap(&mut current, self);
        proof {
            use_type_invariant(&current);
        }
        let FilterEngine {
            mut exact_blocks,
            mut exact_allows,
            wildcard_blocks,
            wildcard_allows,
            regex_blocks,
            regex_patterns,
        } = current;
        match rule_type {
            RuleType2::Block => {
                exact_blocks.remove(domain);
            },
            RuleType2::Allow => {
                exact_allows.remove(domain);
            },
        }
        *self = FilterEngine {
            exact_blocks,
            exact_allows,
            wildcard_blocks,
            wildcard_allows,
            regex_blocks,
            regex_patterns,
        };
    }

    /// Removes `domain`, taken as it is, from the exact block and exact allow
    /// rules.
    pub fn remove_rule(&mut self, domain: &str)
        ensures
            final(self)@ == (FilterModel {
                exact_blocks: old(self)@.exact_blocks.remove(domain@),
                exact_allows: old(self)@.exact_allows.remove(domain@),
                ..old(self)@
            }),
    {
        let mut current = FilterEngine::new();
        std::mem::swap(&mut current, self);
        proof {
            use_type_invariant(&current);
        }
        let FilterEngine {
            mut exact_blocks,
            mut exact_allows,
            wildcard_blocks,
            wildcard_allows,
            regex_blocks,
            regex_patterns,
        } = current;
        exact_blocks.remove(domain);
        exact_allows.remove(domain);
        *self = FilterEngine {
            exact_blocks,
            exact_allows,
            wildcard_blocks,
            wildcard_allows,
            regex_blocks,
            regex_patterns,
        };
    }
}

impl Default for FilterEngine {
    fn default() -> (r: Self)
        ensures
            r@ == empty_model(),
    {
        Self::new()
    }
}

/// How many rules a filter holds, counted saturating at `usize::MAX`.
pub open spec fn spec_rule_count(m: FilterModel) -> int {
    spec_min_usize(
        (m.exact_blocks.len() + m.exact_allows.len() + m.wildcard_blocks.len()
            + m.wildcard_allows.len() + m.regex_patterns.len()) as int,
    )
}

pub open spec fn spec_min_usize(n: int) -> int {
    if n > usize::MAX {
        usize::MAX as int
    } else {
        n
    }
}

/// Once a line fails to parse, every longer prefix fails too.
proof fn lemma_parse_rules_error_sticks(lines: Seq<Seq<char>>, k: int)
    requires
        0 <= k <= lines.len(),
        spec_parse_rules(lines.take(k)) is None,
    ensures
        spec_parse_rules(lines) is None,
    decreases lines.len() - k,
{
    if k < lines.len() {
        assert(lines.take(k + 1).drop_last() =~= lines.take(k));
        lemma_parse_rules_error_sticks(lines, k + 1);
    } else {
        assert(lines.take(k) =~= lines);
    }
}

// ---------------------------------------------------------------------------
// Laws.
// ---------------------------------------------------------------------------

/// An allow rule wins over every block rule: a domain that an exact or
/// wildcard allow rule covers is allowed, whatever the block rules say.
pub proof fn law_allow_overrides_block(m: FilterModel, d: Seq<char>)
    requires
        is_allowed_by(m, d),
    ensures
        spec_decide(m, d) is Allowed,
{
}

/// A domain given an exact allow rule is allowed, whatever else the filter
/// holds.
pub proof fn law_exact_allow_allows(m: FilterModel, d: Seq<char>)
    ensures
        spec_decide(FilterModel { exact_allows: m.exact_allows.insert(d), ..m }, d) is Allowed,
{
    law_allow_overrides_block(FilterModel { exact_allows: m.exact_allows.insert(d), ..m }, d);
}

/// A domain listed as an exact block, and covered by no allow rule, is
/// blocked by that very rule.
pub proof fn law_exact_block_blocks(m: FilterModel, d: Seq<char>)
    requires
        m.exact_blocks.contains(d),
        !is_allowed_by(m, d),
    ensures
        spec_decide(m, d) == Verdict::Blocked(d),
{
}

/// A wildcard pattern covers the domain itself and every subdomain of it,
/// at any depth.
pub proof fn law_wildcard_covers_subdomains(pattern: Seq<char>, labels: Seq<char>)
    ensures
        wildcard_matches(pattern, pattern),
        wildcard_matches(labels + seq!['.'] + pattern, pattern),
{
    let d = labels + seq!['.'] + pattern;
    let suffix = seq!['.'] + pattern;
    assert(d.skip(d.len() - suffix.len()) =~= suffix);
}

/// A domain covered by a block rule of any kind is never left unmatched.
pub proof fn law_blocked_domain_is_matched(m: FilterModel, d: Seq<char>)
    requires
        m.exact_blocks.contains(d) || first_wildcard(m.wildcard_blocks, d) is Some,
    ensures
        !(spec_decide(m, d) is NotMatched),
{
}

/// With no rules, nothing is matched.
pub proof fn law_no_rules_match_nothing(d: Seq<char>)
    ensures
        spec_decide(empty_model(), d) == Verdict::NotMatched,
{
}

/// Adding rules keeps every rule already there: exact sets only grow and the
/// earlier wildcard and regex rules stay in front, in their order.
pub proof fn law_adding_keeps_rules(m: FilterModel, rs: Seq<RuleSpec>)
    ensures
        m.exact_blocks.subset_of(apply_rules(m, rs).exact_blocks),
        m.exact_allows.subset_of(apply_rules(m, rs).exact_allows),
        m.wildcard_blocks.is_prefix_of(apply_rules(m, rs).wildcard_blocks),
        m.wildcard_allows.is_prefix_of(apply_rules(m, rs).wildcard_allows),
        m.regex_patterns.is_prefix_of(apply_rules(m, rs).regex_patterns),
    decreases rs.len(),
{
    if rs.len() > 0 {
        law_adding_keeps_rules(m, rs.drop_last());
    }
}

proof fn lemma_listed_exact_block(m: FilterModel, rs: Seq<RuleSpec>, i: int, d: Seq<char>)
    requires
        0 <= i < rs.len(),
        rs[i] == RuleSpec::ExactBlock(d),
    ensures
        apply_rules(m, rs).exact_blocks.contains(d),
    decreases rs.len(),
{
    if i == rs.len() - 1 {
    } else {
        lemma_listed_exact_block(m, rs.drop_last(), i, d);
        law_adding_keeps_rules(apply_rules(m, rs.drop_last()), seq![rs.last()]);
        assert(seq![rs.last()].drop_last() =~= Seq::<RuleSpec>::empty());
    }
}

/// A domain listed as an exact block rule anywhere in a list of rules, and
/// not covered by an allow rule of the resulting filter, is blocked by that
/// rule once the list is added.
pub proof fn law_listed_rule_blocks(m: FilterModel, rs: Seq<RuleSpec>, i: int, d: Seq<char>)
    requires
        0 <= i < rs.len(),
        rs[i] == RuleSpec::ExactBlock(d),
        !is_allowed_by(apply_rules(m, rs), d),
    ensures
        spec_decide(apply_rules(m, rs), d) == Verdict::Blocked(d),
{
    lemma_listed_exact_block(m, rs, i, d);
    law_exact_block_blocks(apply_rules(m, rs), d);
}

/// The list holds the rule `r`.
pub open spec fn has_rule(rs: Seq<RuleSpec>, r: RuleSpec) -> bool {
    exists|i: int| 0 <= i < rs.len() && rs[i] == r
}

/// Some allow rule of the list covers `d`: an exact allow of `d`, or a
/// wildcard allow whose pattern `d` is or is a subdomain of.
pub open spec fn allowed_by_rules(rs: Seq<RuleSpec>, d: Seq<char>) -> bool {
    has_rule(rs, RuleSpec::ExactAllow(d)) || exists|p: Seq<char>| #[trigger] has_rule(rs, RuleSpec::WildcardAllow(p)) && wildcard_matches(d, p)
}

/// Some block rule of the list covers `d`: an exact block of `d`, a
/// wildcard block whose pattern `d` is or is a subdomain of, or a regex
/// rule that matches `d`.
pub open spec fn blocked_by_rules(rs: Seq<RuleSpec>, d: Seq<char>) -> bool {
    ||| has_rule(rs, RuleSpec::ExactBlock(d))
    ||| exists|p: Seq<char>| #[trigger] has_rule(rs, RuleSpec::WildcardBlock(p)) && wildcard_matches(d, p)
    ||| first_regex_match(regex_of(rs), d) is Some
}

proof fn lemma_first_wildcard_some(ps: Seq<Seq<char>>, d: Seq<char>, i: int)
    requires
        0 <= i,
    ensures
        first_wildcard_from(ps, d, i) is Some <==> exists|k: int| i <= k < ps.len() && wildcard_matches(d, #[trigger] ps[k]),
    decreases ps.len() - i,
{
    if i < ps.len() {
        lemma_first_wildcard_some(ps, d, i + 1);
        if exists|k: int| i <= k < ps.len() && wildcard_matches(d, #[trigger] ps[k]) {
            let k = choose|k: int| i <= k < ps.len() && wildcard_matches(d, #[trigger] ps[k]);
            if k > i {
                assert(i + 1 <= k < ps.len() && wildcard_matches(d, ps[k]));
            }
        }
    }
}

proof fn lemma_push_contains(s: Seq<Seq<char>>, p: Seq<char>, pushed: bool, q: Seq<char>)
    ensures
        pushed ==> (s.push(q).contains(p) <==> (s.contains(p) || p == q)),
{
    if pushed {
        if s.push(q).contains(p) {
            let k = choose|k: int| 0 <= k < s.push(q).len() && s.push(q)[k] == p;
            if k < s.len() {
                assert(s[k] == p);
            }
        }
        if s.contains(p) {
            let k = choose|k: int| 0 <= k < s.len() && s[k] == p;
            assert(s.push(q)[k] == p);
        }
        if p == q {
            assert(s.push(q)[s.len() as int] == p);
        }
    }
}

/// What a list of rules adds to the empty filter, kind by kind.
proof fn lemma_apply_rules_members(rs: Seq<RuleSpec>)
    ensures
        forall|d: Seq<char>| #[trigger] apply_rules(empty_model(), rs).exact_allows.contains(d) <==> has_rule(rs, RuleSpec::ExactAllow(d)),
        forall|d: Seq<char>| #[trigger] apply_rules(empty_model(), rs).exact_blocks.contains(d) <==> has_rule(rs, RuleSpec::ExactBlock(d)),
        forall|p: Seq<char>| #[trigger] apply_rules(empty_model(), rs).wildcard_allows.contains(p) <==> has_rule(rs, RuleSpec::WildcardAllow(p)),
        forall|p: Seq<char>| #[trigger] apply_rules(empty_model(), rs).wildcard_blocks.contains(p) <==> has_rule(rs, RuleSpec::WildcardBlock(p)),
    decreases rs.len(),
{
    if rs.len() > 0 {
        let init = rs.drop_last();
        lemma_apply_rules_members(init);
        let m0 = apply_rules(empty_model(), init);
        let r = rs.last();
        assert forall|x: RuleSpec| has_rule(rs, x) <==> (has_rule(init, x) || x == r) by {
            if has_rule(rs, x) {
                let i = choose|i: int| 0 <= i < rs.len() && rs[i] == x;
                if i < init.len() {
                    assert(init[i] == x);
                }
            }
            if has_rule(init, x) {
                let i = choose|i: int| 0 <= i < init.len() && init[i] == x;
                assert(rs[i] == x);
            }
            if x == r {
                assert(rs[rs.len() - 1] == x);
            }
        }
        let m = apply_rules(empty_model(), rs);
        assert forall|p: Seq<char>| #[trigger] m.wildcard_allows.contains(p) <==> has_rule(rs, RuleSpec::WildcardAllow(p)) by {
            lemma_push_contains(m0.wildcard_allows, p, r is WildcardAllow, match r { RuleSpec::WildcardAllow(q) => q, _ => p });
            match r {
                RuleSpec::WildcardAllow(q) => assert(m.wildcard_allows == m0.wildcard_allows.push(q)),
                _ => assert(m.wildcard_allows == m0.wildcard_allows),
            }
        }
        assert forall|p: Seq<char>| #[trigger] m.wildcard_blocks.contains(p) <==> has_rule(rs, RuleSpec::WildcardBlock(p)) by {
            lemma_push_contains(m0.wildcard_blocks, p, r is WildcardBlock, match r { RuleSpec::WildcardBlock(q) => q, _ => p });
            match r {
                RuleSpec::WildcardBlock(q) => assert(m.wildcard_blocks == m0.wildcard_blocks.push(q)),
                _ => assert(m.wildcard_blocks == m0.wildcard_blocks),
            }
        }
    }
}

/// The verdict of the filter a list of rules builds, told in terms of the
/// rules: allowed exactly when an allow rule covers the domain (allow wins
/// over block); otherwise blocked exactly when a block rule covers it;
/// otherwise not matched.
pub proof fn law_decision_from_rules(rs: Seq<RuleSpec>, d: Seq<char>)
    ensures
        spec_decide(apply_rules(empty_model(), rs), d) is Allowed <==> allowed_by_rules(rs, d),
        spec_decide(apply_rules(empty_model(), rs), d) is Blocked <==> !allowed_by_rules(rs, d) && blocked_by_rules(rs, d),
        spec_decide(apply_rules(empty_model(), rs), d) is NotMatched <==> !allowed_by_rules(rs, d) && !blocked_by_rules(rs, d),
{
    let m = apply_rules(empty_model(), rs);
    lemma_apply_rules_members(rs);
    lemma_apply_rules_regex(empty_model(), rs);
    assert(Seq::<Seq<char>>::empty() + regex_of(rs) =~= regex_of(rs));
    lemma_first_wildcard_some(m.wildcard_allows, d, 0);
    lemma_first_wildcard_some(m.wildcard_blocks, d, 0);
    assert((first_wildcard(m.wildcard_allows, d) is Some) <==> exists|p: Seq<char>| #[trigger] has_rule(rs, RuleSpec::WildcardAllow(p)) && wildcard_matches(d, p)) by {
        if first_wildcard(m.wildcard_allows, d) is Some {
            let k = choose|k: int| 0 <= k < m.wildcard_allows.len() && wildcard_matches(d, #[trigger] m.wildcard_allows[k]);
            assert(m.wildcard_allows.contains(m.wildcard_allows[k]));
        }
        if exists|p: Seq<char>| #[trigger] has_rule(rs, RuleSpec::WildcardAllow(p)) && wildcard_matches(d, p) {
            let p = choose|p: Seq<char>| #[trigger] has_rule(rs, RuleSpec::WildcardAllow(p)) && wildcard_matches(d, p);
            assert(m.wildcard_allows.contains(p));
            let k = choose|k: int| 0 <= k < m.wildcard_allows.len() && m.wildcard_allows[k] == p;
            assert(wildcard_matches(d, m.wildcard_allows[k]));
        }
    }
    assert((first_wildcard(m.wildcard_blocks, d) is Some) <==> exists|p: Seq<char>| #[trigger] has_rule(rs, RuleSpec::WildcardBlock(p)) && wildcard_matches(d, p)) by {
        if first_wildcard(m.wildcard_blocks, d) is Some {
            let k = choose|k: int| 0 <= k < m.wildcard_blocks.len() && wildcard_matches(d, #[trigger] m.wildcard_blocks[k]);
            assert(m.wildcard_blocks.contains(m.wildcard_blocks[k]));
        }
        if exists|p: Seq<char>| #[trigger] has_rule(rs, RuleSpec::WildcardBlock(p)) && wildcard_matches(d, p) {
            let p = choose|p: Seq<char>| #[trigger] has_rule(rs, RuleSpec::WildcardBlock(p)) && wildcard_matches(d, p);
            assert(m.wildcard_blocks.contains(p));
            let k = choose|k: int| 0 <= k < m.wildcard_blocks.len() && m.wildcard_blocks[k] == p;
            assert(wildcard_matches(d, m.wildcard_blocks[k]));
        }
    }
    assert(m.exact_allows.contains(d) <==> has_rule(rs, RuleSpec::ExactAllow(d)));
    assert(m.exact_blocks.contains(d) <==> has_rule(rs, RuleSpec::ExactBlock(d)));
}

/// A rule line that is a regular expression: `/.../`, after an optional
/// `@@`.
pub open spec fn is_regex_line(line: Seq<char>) -> bool {
    let rule = if starts_with_two(line, '@', '@') {
        line.skip(2)
    } else {
        line
    };
    rule.len() >= 3 && rule[0] == '/' && rule.last() == '/'
}

/// Domain rules are case-insensitive: an ASCII rule line that is not a
/// regular expression denotes the same rule as its lowercase form, so the
/// two give the same verdict for every domain; and the names the rule
/// holds (exact or wildcard, block or allow) are themselves lowercase.
pub proof fn law_rules_ignore_case(line: Seq<char>)
    requires
        vstd::utf8::is_ascii_chars(line),
        !is_regex_line(line),
    ensures
        spec_parse_rule(lowercase(line)) == spec_parse_rule(line),
        spec_parse_rule(line) matches Some(r) ==> match r {
            RuleSpec::ExactBlock(d) => lowercase(d) == d,
            RuleSpec::ExactAllow(d) => lowercase(d) == d,
            RuleSpec::WildcardBlock(d) => lowercase(d) == d,
            RuleSpec::WildcardAllow(d) => lowercase(d) == d,
            RuleSpec::RegexBlock(_) => false,
        },
{
    lemma_lowercase_ascii_text(line);
    let l = lowercase(line);
    let allow = starts_with_two(line, '@', '@');
    if line.len() >= 2 {
        assert(l[0] == ascii_lower(line[0]) && l[1] == ascii_lower(line[1]));
    }
    assert(starts_with_two(l, '@', '@') == allow);
    let rule = if allow { line.skip(2) } else { line.skip(0) };
    let lrule = if allow { l.skip(2) } else { l.skip(0) };
    assert(line.skip(0) =~= line);
    assert(l.skip(0) =~= l);
    assert(lrule == lowercase(rule));
    lemma_lowercase_ascii_text(rule);
    if rule.len() >= 1 {
        assert(lrule[0] == ascii_lower(rule[0]));
        assert(lrule[lrule.len() - 1] == ascii_lower(rule[rule.len() - 1]));
    }
    if rule.len() >= 2 {
        assert(lrule[1] == ascii_lower(rule[1]));
    }
    assert(!(lrule.len() >= 3 && lrule[0] == '/' && lrule.last() == '/'));
    if starts_with_two(rule, '*', '.') {
        assert(starts_with_two(lrule, '*', '.'));
        assert(lrule.skip(2) == lowercase(rule.skip(2)));
        let z = rule.skip(2);
        assert(vstd::utf8::is_ascii_chars(z)) by {
            assert forall|i: int| 0 <= i < z.len() implies '\0' <= #[trigger] z[i] <= '\u{7f}' by {
                assert(z[i] == rule[i + 2]);
            }
        }
        lemma_lowercase_ascii_text(z);
    } else {
        assert(!starts_with_two(lrule, '*', '.'));
    }
}

/// Every line that is neither blank nor a comment makes one rule: when a
/// list of rule lines parses, it gives as many rules as it has such lines
/// (the count `load_rules` and `add_rules` return).
pub proof fn law_rule_count(ls: Seq<Seq<char>>)
    ensures
        spec_parse_rules(ls) matches Some(rs) ==> rs.len() == content_lines(ls),
    decreases ls.len(),
{
    if ls.len() > 0 {
        law_rule_count(ls.drop_last());
    }
}

/// Removing an exact rule undoes adding it: when `d` had no exact rule of
/// that kind, adding one and taking it out again leaves the filter as it
/// was; and taking out one kind leaves the other kind's rule for `d`.
pub proof fn law_remove_undoes_add(m: FilterModel, d: Seq<char>, kind: RuleType2)
    requires
        match kind {
            RuleType2::Block => !m.exact_blocks.contains(d),
            RuleType2::Allow => !m.exact_allows.contains(d),
        },
    ensures
        spec_remove_exact(spec_add_exact(m, d, kind), d, kind) == m,
        spec_remove_exact(m, d, RuleType2::Block).exact_allows == m.exact_allows,
        spec_remove_exact(m, d, RuleType2::Allow).exact_blocks == m.exact_blocks,
{
    match kind {
        RuleType2::Block => {
            assert(m.exact_blocks.insert(d).remove(d) =~= m.exact_blocks);
        },
        RuleType2::Allow => {
            assert(m.exact_allows.insert(d).remove(d) =~= m.exact_allows);
        },
    }
}

/// Adding two batches of rules one after the other is adding them together.
pub proof fn law_apply_rules_concat(m: FilterModel, a: Seq<RuleSpec>, b: Seq<RuleSpec>)
    ensures
        apply_rules(apply_rules(m, a), b) == apply_rules(m, a + b),
    decreases b.len(),
{
    if b.len() == 0 {
        assert(a + b =~= a);
    } else {
        law_apply_rules_concat(m, a, b.drop_last());
        assert((a + b).drop_last() =~= a + b.drop_last());
        assert((a + b).last() == b.last());
    }
}

/// The rules of two lists of lines are the rules of the first list followed
/// by those of the second; so loading `a` and then adding `b` gives the rules
/// that loading `a` and `b` together gives.
pub proof fn law_parse_rules_concat(a: Seq<Seq<char>>, b: Seq<Seq<char>>)
    requires
        spec_parse_rules(a) is Some,
        spec_parse_rules(b) is Some,
    ensures
        spec_parse_rules(a + b) == Some(spec_parse_rules(a)->0 + spec_parse_rules(b)->0),
    decreases b.len(),
{
    if b.len() == 0 {
        assert(a + b =~= a);
        assert(spec_parse_rules(a)->0 + Seq::<RuleSpec>::empty() =~= spec_parse_rules(a)->0);
    } else {
        law_parse_rules_concat(a, b.drop_last());
        assert((a + b).drop_last() =~= a + b.drop_last());
        assert((a + b).last() == b.last());
        let ra = spec_parse_rules(a)->0;
        let rb = spec_parse_rules(b.drop_last())->0;
        let t = trim(b.last());
        if !is_skipped_line(t) {
            let r = spec_parse_rule(t)->0;
            assert(ra + rb.push(r) =~= (ra + rb).push(r));
        }
    }
}

} // verus!
