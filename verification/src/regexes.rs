//! The calls into the `regex` crate, and the names for what they return.

use vstd::prelude::*;

use regex::RegexSet;

use crate::text::views;

verus! {

#[verifier::external_type_specification]
#[verifier::external_body]
pub struct ExRegexSet(regex::RegexSet);

#[verifier::external_type_specification]
#[verifier::external_body]
pub struct ExRegexError(regex::Error);

/// Whether `regex::Regex::new` accepts a pattern.
pub uninterp spec fn regex_compiles(pattern: Seq<char>) -> bool;

/// Whether `regex::RegexSet::new` accepts a list of patterns.
pub uninterp spec fn regex_set_builds(patterns: Seq<Seq<char>>) -> bool;

/// The patterns a `RegexSet` holds, in the order it was built from
/// (`RegexSet::patterns`).
pub uninterp spec fn regex_set_patterns(set: RegexSet) -> Seq<Seq<char>>;

/// The indices that `RegexSet::matches` reports for a set built from
/// `patterns`, searched in `haystack`.
pub uninterp spec fn regex_set_matches(patterns: Seq<Seq<char>>, haystack: Seq<char>) -> Set<int>;

/// The least index of a pattern that matches `haystack`, if any does.
pub open spec fn first_regex_match(patterns: Seq<Seq<char>>, haystack: Seq<char>) -> Option<int> {
    let ms = regex_set_matches(patterns, haystack);
    if exists|i: int| 0 <= i < patterns.len() && ms.contains(i) {
        Some(
            choose|i: int|
                0 <= i < patterns.len() && ms.contains(i) && forall|j: int|
                    0 <= j < i ==> !ms.contains(j),
        )
    } else {
        None
    }
}

/// Calls `regex::Regex::new` to check one pattern. Claims only that it
/// succeeds exactly when the named check accepts the pattern.
#[verifier::external_body]
pub(crate) fn check_regex(pattern: &str) -> (r: Result<(), regex::Error>)
    ensures
        r is Ok <==> regex_compiles(pattern@),
{
    regex::Regex::new(pattern).map(|_| ())
}

/// Calls `regex::RegexSet::new` on `patterns`. Claims that it succeeds
/// exactly when the named check accepts the list, and that the set it builds
/// holds these patterns in this order (what `RegexSet::patterns` returns).
#[verifier::external_body]
pub(crate) fn build_regex_set(patterns: &Vec<String>) -> (r: Result<RegexSet, regex::Error>)
    ensures
        r is Ok <==> regex_set_builds(views(patterns@)),
        r matches Ok(s) ==> regex_set_patterns(s) == views(patterns@),
{
    RegexSet::new(patterns.iter())
}

/// Calls `RegexSet::matches` and takes the first index of its ascending
/// iteration. Claims that this index belongs to a pattern of the set, is
/// reported by the named match set, and that no smaller index is; and that
/// nothing is returned only when no index of the set is reported.
#[verifier::external_body]
pub(crate) fn first_match(set: &RegexSet, haystack: &str) -> (r: Option<usize>)
    ensures
        r matches Some(i) ==> {
            &&& i < regex_set_patterns(*set).len()
            &&& regex_set_matches(regex_set_patterns(*set), haystack@).contains(i as int)
            &&& forall|j: int|
                0 <= j < i ==> !regex_set_matches(regex_set_patterns(*set), haystack@).contains(j)
        },
        r is None ==> forall|j: int|
            0 <= j < regex_set_patterns(*set).len() ==> !regex_set_matches(
                regex_set_patterns(*set),
                haystack@,
            ).contains(j),
{
    set.matches(haystack).iter().next()
}

/// Whether some pattern of the set is reported as matching `haystack`.
pub open spec fn set_matches_any(patterns: Seq<Seq<char>>, haystack: Seq<char>) -> bool {
    exists|i: int| 0 <= i < patterns.len() && regex_set_matches(patterns, haystack).contains(i)
}

/// Calls `RegexSet::is_match`, which answers whether any pattern of the set
/// matches. Claims that the answer is true exactly when the named match set
/// of the set's patterns holds one of their indices.
#[verifier::external_body]
pub(crate) fn set_is_match(set: &RegexSet, haystack: &str) -> (r: bool)
    ensures
        r == set_matches_any(regex_set_patterns(*set), haystack@),
{
    set.is_match(haystack)
}

/// The index `first_match` returns is the least matching one.
pub proof fn lemma_first_match_is_least(
    patterns: Seq<Seq<char>>,
    haystack: Seq<char>,
    r: Option<usize>,
)
    requires
        r matches Some(i) ==> {
            &&& i < patterns.len()
            &&& regex_set_matches(patterns, haystack).contains(i as int)
            &&& forall|j: int| 0 <= j < i ==> !regex_set_matches(patterns, haystack).contains(j)
        },
        r is None ==> forall|j: int|
            0 <= j < patterns.len() ==> !regex_set_matches(patterns, haystack).contains(j),
    ensures
        first_regex_match(patterns, haystack) == match r {
            Some(i) => Some(i as int),
            None => None::<int>,
        },
{
    let ms = regex_set_matches(patterns, haystack);
    match r {
        Some(i) => {
            assert(0 <= i < patterns.len() && ms.contains(i as int));
            let k = choose|k: int|
                0 <= k < patterns.len() && ms.contains(k) && forall|j: int|
                    0 <= j < k ==> !ms.contains(j);
            if k < i {
                assert(!ms.contains(k));
            }
            if i < k {
                assert(!ms.contains(i as int));
            }
        },
        None => {},
    }
}

} // verus!
