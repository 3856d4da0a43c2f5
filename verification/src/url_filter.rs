//! URL-level ad filtering for the HTTPS proxy: path fragments and regular
//! expressions that catch ads which DNS blocking cannot (ads served from the
//! same domain as the content, first-party ad scripts, tracking pixels).

use vstd::prelude::*;

use regex::RegexSet;

use crate::regexes::{build_regex_set, regex_set_builds, regex_set_patterns, set_is_match, set_matches_any};
use crate::text::{chars_of, contains_chars, eq_chars, has_infix, has_prefix, starts_with, views};

verus! {

broadcast use vstd::string::group_string_axioms;

/// The path fragments blocked by default: YouTube's ad and tracking
/// endpoints and Google's ad infrastructure.
pub open spec fn spec_default_paths() -> Seq<Seq<char>> {
    seq![
        "/api/stats/ads"@, "/api/stats/atr"@, "/pagead/"@, "/ptracking"@,
        "/get_video_info?.*&ad_"@, "/youtubei/v1/player/ad_break"@,
        "/api/stats/playback?.*&ad_"@, "/api/stats/watchtime?.*&ad_"@,
        "/s/player/*/player_ias.vflset/*/base.js"@, "/videoplayback?.*&oad="@,
        "/videoplayback?.*&ctier=L"@, "/pagead/conversion/"@,
        "/pagead/viewthroughconversion/"@, "/pagead/adview"@, "/pagead/lvz"@,
        "/gpt/pubads_impl"@, "/tag/js/gpt.js"@, "/gampad/ads"@, "/adx/"@,
    ]
}

fn default_paths() -> (r: Vec<&'static str>)
    ensures
        r@.map_values(|s: &str| s@) == spec_default_paths(),
{
    let r = vec![
        "/api/stats/ads", "/api/stats/atr", "/pagead/", "/ptracking",
        "/get_video_info?.*&ad_", "/youtubei/v1/player/ad_break",
        "/api/stats/playback?.*&ad_", "/api/stats/watchtime?.*&ad_",
        "/s/player/*/player_ias.vflset/*/base.js", "/videoplayback?.*&oad=",
        "/videoplayback?.*&ctier=L", "/pagead/conversion/",
        "/pagead/viewthroughconversion/", "/pagead/adview", "/pagead/lvz",
        "/gpt/pubads_impl", "/tag/js/gpt.js", "/gampad/ads", "/adx/",
    ];
    assert(r@.map_values(|s: &str| s@) =~= spec_default_paths());
    r
}

/// The regular expressions blocked by default: YouTube ad segments and ad
/// requests, ad networks, and tracking pixels.
pub open spec fn spec_default_regexes() -> Seq<Seq<char>> {
    seq![
        "googlevideo\\.com/videoplayback\\?.*&oad="@,
        "googlevideo\\.com/videoplayback\\?.*&ctier=L"@,
        "googlevideo\\.com/videoplayback\\?.*&vprv=1.*&initcwndbps="@,
        "youtube\\.com/api/stats/ads"@, "youtube\\.com/pagead/"@, "youtube\\.com/ptracking"@,
        "youtube\\.com/get_midroll_"@, "youtube\\.com/api/stats/atr"@, "doubleclick\\.net/"@,
        "googlesyndication\\.com/"@, "googleadservices\\.com/"@, "google-analytics\\.com/"@,
        "googletagmanager\\.com/"@, "googletagservices\\.com/"@, "google\\.com/ads/"@,
        "google\\.com/pagead/"@, "adservice\\.google\\."@, "ads\\.yahoo\\.com"@,
        "analytics\\.yahoo\\.com"@, "advertising\\.com"@, "adnxs\\.com"@, "adsrvr\\.org"@,
        "amazon-adsystem\\.com"@, "facebook\\.com/tr\\?"@, "facebook\\.net/signals/"@,
        "scorecardresearch\\.com"@, "outbrain\\.com/outbrain"@, "taboola\\.com/libtrc"@,
        "\\.gif\\?.*&tid="@, "/pixel\\?"@, "/track\\?"@, "/beacon\\?"@, "/collect\\?.*&tid="@,
    ]
}

fn default_regexes() -> (r: Vec<&'static str>)
    ensures
        r@.map_values(|s: &str| s@) == spec_default_regexes(),
{
    let r = vec![
        "googlevideo\\.com/videoplayback\\?.*&oad=",
        "googlevideo\\.com/videoplayback\\?.*&ctier=L",
        "googlevideo\\.com/videoplayback\\?.*&vprv=1.*&initcwndbps=",
        "youtube\\.com/api/stats/ads", "youtube\\.com/pagead/", "youtube\\.com/ptracking",
        "youtube\\.com/get_midroll_", "youtube\\.com/api/stats/atr", "doubleclick\\.net/",
        "googlesyndication\\.com/", "googleadservices\\.com/", "google-analytics\\.com/",
        "googletagmanager\\.com/", "googletagservices\\.com/", "google\\.com/ads/",
        "google\\.com/pagead/", "adservice\\.google\\.", "ads\\.yahoo\\.com",
        "analytics\\.yahoo\\.com", "advertising\\.com", "adnxs\\.com", "adsrvr\\.org",
        "amazon-adsystem\\.com", "facebook\\.com/tr\\?", "facebook\\.net/signals/",
        "scorecardresearch\\.com", "outbrain\\.com/outbrain", "taboola\\.com/libtrc",
        "\\.gif\\?.*&tid=", "/pixel\\?", "/track\\?", "/beacon\\?", "/collect\\?.*&tid=",
    ];
    assert(r@.map_values(|s: &str| s@) =~= spec_default_regexes());
    r
}

/// What a URL filter holds: the blocked path fragments, the regular
/// expressions added so far, and the patterns of the compiled set in use
/// (none until a list of expressions has compiled).
pub ghost struct UrlFilterView {
    pub paths: Set<Seq<char>>,
    pub regexes: Seq<Seq<char>>,
    pub active: Option<Seq<Seq<char>>>,
}

/// Whether a request is refused: a blocked fragment occurs in the URL or
/// starts the path, or a pattern of the compiled set matches the URL.
pub open spec fn spec_url_blocked(v: UrlFilterView, path: Seq<char>, url: Seq<char>) -> bool {
    (exists|p: Seq<char>| #[trigger] v.paths.contains(p) && (has_infix(url, p) || has_prefix(path, p)))
        || (v.active matches Some(ps) && set_matches_any(ps, url))
}

/// The compiled set after the expression list became `regexes`: the new list
/// when it compiles, else the set in use before.
pub open spec fn next_active(
    regexes: Seq<Seq<char>>,
    before: Option<Seq<Seq<char>>>,
) -> Option<Seq<Seq<char>>> {
    if regex_set_builds(regexes) {
        Some(regexes)
    } else {
        before
    }
}

/// Blocks requests by URL path fragments and regular expressions.
#[derive(Debug)]
pub struct UrlFilter {
    blocked_paths: Vec<String>,
    regex_strings: Vec<String>,
    regex_patterns: Option<RegexSet>,
}

impl View for UrlFilter {
    type V = UrlFilterView;

    closed spec fn view(&self) -> UrlFilterView {
        UrlFilterView {
            paths: views(self.blocked_paths@).to_set(),
            regexes: views(self.regex_strings@),
            active: match self.regex_patterns {
                Some(s) => Some(regex_set_patterns(s)),
                None => None,
            },
        }
    }
}

impl UrlFilter {
    /// A filter with the default paths and expressions.
    pub fn new() -> (r: Self)
        ensures
            r@ == (UrlFilterView {
                paths: spec_default_paths().to_set(),
                regexes: spec_default_regexes(),
                active: next_active(spec_default_regexes(), None),
            }),
    {
        let mut f = UrlFilter {
            blocked_paths: Vec::new(),
            regex_strings: Vec::new(),
            regex_patterns: None,
        };
        assert(views(f.blocked_paths@) =~= Seq::<Seq<char>>::empty());
        assert(views(f.blocked_paths@).to_set() =~= Set::<Seq<char>>::empty());
        assert(views(f.regex_strings@) =~= Seq::<Seq<char>>::empty());
        f.load_default_rules();
        assert(Set::<Seq<char>>::empty().union(spec_default_paths().to_set()) =~= spec_default_paths().to_set());
        assert(Seq::<Seq<char>>::empty() + spec_default_regexes() =~= spec_default_regexes());
        f
    }

    /// Whether the request for `url` (whose path is `path`) is refused. The
    /// host takes no part in the decision.
    pub fn should_block(&self, host: &str, path: &str, url: &str) -> (r: bool)
        ensures
            r == spec_url_blocked(self@, path@, url@),
    {
        let url_c = chars_of(url);
        let path_c = chars_of(path);
        let ghost pv = views(self.blocked_paths@);
        let mut i: usize = 0;
        while i < self.blocked_paths.len()
            invariant
                i <= self.blocked_paths.len(),
                pv == views(self.blocked_paths@),
                url_c@ == url@,
                path_c@ == path@,
                forall|k: int|
                    0 <= k < i ==> !(has_infix(url@, #[trigger] pv[k]) || has_prefix(path@, pv[k])),
            decreases self.blocked_paths.len() - i,
        {
            let p = chars_of(self.blocked_paths[i].as_str());
            assert(pv[i as int] == self.blocked_paths@[i as int]@);
            if contains_chars(&url_c, &p) || starts_with(&path_c, &p) {
                assert(pv.to_set().contains(pv[i as int]));
                assert(self@.paths.contains(pv[i as int]) && (has_infix(url@, pv[i as int])
                    || has_prefix(path@, pv[i as int])));
                return true;
            }
            i += 1;
        }
        assert(!exists|p: Seq<char>| #[trigger] self@.paths.contains(p) && (has_infix(url@, p) || has_prefix(path@, p))) by {
            if exists|p: Seq<char>| #[trigger] self@.paths.contains(p) && (has_infix(url@, p) || has_prefix(path@, p)) {
                let p = choose|p: Seq<char>| #[trigger] self@.paths.contains(p) && (has_infix(url@, p) || has_prefix(path@, p));
                let k = choose|k: int| 0 <= k < pv.len() && pv[k] == p;
                assert(!(has_infix(url@, pv[k]) || has_prefix(path@, pv[k])));
            }
        }
        match &self.regex_patterns {
            Some(set) => set_is_match(set, url),
            None => false,
        }
    }

    /// Adds a blocked path fragment.
    pub fn add_path_rule(&mut self, path: &str)
        ensures
            final(self)@ == (UrlFilterView { paths: old(self)@.paths.insert(path@), ..old(self)@ }),
    {
        let p = chars_of(path);
        let ghost before = views(self.blocked_paths@);
        let mut i: usize = 0;
        while i < self.blocked_paths.len()
            invariant
                i <= self.blocked_paths.len(),
                before == views(self.blocked_paths@),
                p@ == path@,
                forall|k: int| 0 <= k < i ==> before[k] != path@,
            decreases self.blocked_paths.len() - i,
        {
            assert(before[i as int] == self.blocked_paths@[i as int]@);
            if eq_chars(&chars_of(self.blocked_paths[i].as_str()), &p) {
                assert(before[i as int] == self.blocked_paths@[i as int]@);
                assert(before.to_set().contains(path@));
                assert(before.to_set().insert(path@) =~= before.to_set());
                return;
            }
            i += 1;
        }
        self.blocked_paths.push(String::from_str(path));
        proof {
            before.lemma_push_to_set_commute(path@);
            assert(views(self.blocked_paths@) =~= before.push(path@));
        }
    }

    /// Adds a regular expression and recompiles the set from all of them.
    /// When the list with it does not compile, the expression is left out
    /// and the filter stays as it was, so later expressions still take
    /// effect.
    pub fn add_regex_rule(&mut self, pattern: &str)
        ensures
            final(self)@ == (if regex_set_builds(old(self)@.regexes.push(pattern@)) {
                UrlFilterView {
                    regexes: old(self)@.regexes.push(pattern@),
                    active: Some(old(self)@.regexes.push(pattern@)),
                    ..old(self)@
                }
            } else {
                old(self)@
            }),
    {
        let ghost before = views(self.regex_strings@);
        self.regex_strings.push(String::from_str(pattern));
        assert(views(self.regex_strings@) =~= before.push(pattern@));
        match build_regex_set(&self.regex_strings) {
            Ok(set) => {
                self.regex_patterns = Some(set);
            },
            Err(_) => {
                self.regex_strings.pop();
                assert(views(self.regex_strings@) =~= before);
            },
        }
    }

    /// Adds the default paths and expressions, then compiles the set.
    fn load_default_rules(&mut self)
        ensures
            final(self)@ == (UrlFilterView {
                paths: old(self)@.paths.union(spec_default_paths().to_set()),
                regexes: old(self)@.regexes + spec_default_regexes(),
                active: next_active(old(self)@.regexes + spec_default_regexes(), old(self)@.active),
            }),
    {
        let paths = default_paths();
        let ghost dp = spec_default_paths();
        let ghost p0 = self@.paths;
        let mut i: usize = 0;
        assert(dp.take(0) =~= Seq::<Seq<char>>::empty());
        assert(p0.union(dp.take(0).to_set()) =~= p0);
        while i < paths.len()
            invariant
                i <= paths.len(),
                paths@.map_values(|s: &str| s@) == dp,
                self@.paths == p0.union(dp.take(i as int).to_set()),
                self@.regexes == old(self)@.regexes,
                self@.active == old(self)@.active,
            decreases paths.len() - i,
        {
            self.add_path_rule(paths[i]);
            assert(dp.take(i + 1) =~= dp.take(i as int).push(dp[i as int]));
            proof {
                dp.take(i as int).lemma_push_to_set_commute(dp[i as int]);
            }
            assert(p0.union(dp.take(i + 1).to_set()) =~= p0.union(dp.take(i as int).to_set()).insert(
                dp[i as int],
            ));
            i += 1;
        }
        assert(dp.take(paths.len() as int) =~= dp);
        let regexes = default_regexes();
        let ghost dr = spec_default_regexes();
        let ghost r0 = views(self.regex_strings@);
        let mut j: usize = 0;
        while j < regexes.len()
            invariant
                j <= regexes.len(),
                regexes@.map_values(|s: &str| s@) == dr,
                views(self.regex_strings@) == r0 + dr.take(j as int),
                self@.paths == p0.union(dp.to_set()),
                self@.active == old(self)@.active,
            decreases regexes.len() - j,
        {
            let ghost before = views(self.regex_strings@);
            self.regex_strings.push(String::from_str(regexes[j]));
            assert(views(self.regex_strings@) =~= before.push(dr[j as int]));
            assert(r0 + dr.take(j + 1) =~= (r0 + dr.take(j as int)).push(dr[j as int]));
            j += 1;
        }
        assert(dr.take(regexes.len() as int) =~= dr);
        match build_regex_set(&self.regex_strings) {
            Ok(set) => {
                self.regex_patterns = Some(set);
            },
            Err(_) => {},
        }
    }
}

/// A path fragment, once added, refuses every request whose URL holds it or
/// whose path starts with it; and nothing refused before is let through.
pub proof fn law_path_rule_blocks(v: UrlFilterView, p: Seq<char>, path: Seq<char>, url: Seq<char>)
    ensures
        has_infix(url, p) || has_prefix(path, p) ==> spec_url_blocked(
            UrlFilterView { paths: v.paths.insert(p), ..v },
            path,
            url,
        ),
        spec_url_blocked(v, path, url) ==> spec_url_blocked(
            UrlFilterView { paths: v.paths.insert(p), ..v },
            path,
            url,
        ),
{
    let w = UrlFilterView { paths: v.paths.insert(p), ..v };
    if has_infix(url, p) || has_prefix(path, p) {
        assert(w.paths.contains(p));
    }
    if exists|q: Seq<char>| #[trigger] v.paths.contains(q) && (has_infix(url, q) || has_prefix(path, q)) {
        let q = choose|q: Seq<char>| #[trigger] v.paths.contains(q) && (has_infix(url, q) || has_prefix(path, q));
        assert(w.paths.contains(q));
    }
}

} // verus!
