//! The most-blocked domains of the query log.

use vstd::prelude::*;

use crate::desktop::{event_views, EventView, QueryEvent, QueryStatus, TopBlocked, TOP_BLOCKED_LIMIT};
use crate::text::{chars_of, eq_chars, string_of};

verus! {

broadcast use vstd::string::group_string_axioms;

/// How many blocked events of `log` name the domain `d`.
pub open spec fn blocked_count(log: Seq<EventView>, d: Seq<char>) -> nat
    decreases log.len(),
{
    if log.len() == 0 {
        0
    } else {
        blocked_count(log.drop_last(), d) + if log.last().status == QueryStatus::Blocked
            && log.last().domain == d {
            1nat
        } else {
            0nat
        }
    }
}

/// The domains that at least one blocked event names.
pub open spec fn blocked_domains(log: Seq<EventView>) -> Set<Seq<char>> {
    Set::new(|d: Seq<char>| blocked_count(log, d) > 0)
}

pub open spec fn top_views(v: Seq<TopBlocked>) -> Seq<(Seq<char>, u64)> {
    v.map_values(|t: TopBlocked| (t.domain@, t.count))
}

pub open spec fn in_ranking(r: Seq<(Seq<char>, u64)>, d: Seq<char>) -> bool {
    exists|a: int| 0 <= a < r.len() && r[a].0 == d
}

/// `r` ranks the most-blocked domains of `log`: at most twenty of them (all
/// of them when there are fewer), each once and with its exact count, by
/// count from the highest; and no domain left out was blocked more often
/// than the last one listed. Domains blocked equally often may come in any
/// order.
pub open spec fn is_top_blocked(log: Seq<EventView>, r: Seq<(Seq<char>, u64)>) -> bool {
    &&& blocked_domains(log).finite()
    &&& r.len() == (if blocked_domains(log).len() < TOP_BLOCKED_LIMIT {
        blocked_domains(log).len()
    } else {
        TOP_BLOCKED_LIMIT as nat
    })
    &&& forall|a: int| 0 <= a < r.len() ==> r[a].1 == blocked_count(log, r[a].0) && r[a].1 > 0
    &&& forall|a: int, b: int| 0 <= a < b < r.len() ==> r[a].0 != r[b].0 && r[a].1 >= r[b].1
    &&& forall|d: Seq<char>|
        #![trigger blocked_count(log, d)]
        blocked_count(log, d) > 0 && !in_ranking(r, d) ==> r.len() > 0 && blocked_count(log, d)
            <= r[r.len() - 1].1
}

proof fn lemma_blocked_count_bounded(log: Seq<EventView>, d: Seq<char>)
    ensures
        blocked_count(log, d) <= log.len(),
    decreases log.len(),
{
    if log.len() > 0 {
        lemma_blocked_count_bounded(log.drop_last(), d);
    }
}

proof fn lemma_blocked_count_step(log: Seq<EventView>, i: int, d: Seq<char>)
    requires
        0 <= i < log.len(),
    ensures
        blocked_count(log.take(i + 1), d) == blocked_count(log.take(i), d) + if log[i].status
            == QueryStatus::Blocked && log[i].domain == d {
            1nat
        } else {
            0nat
        },
{
    assert(log.take(i + 1).drop_last() =~= log.take(i));
}

/// How many entries of `s` are false.
spec fn count_false(s: Seq<bool>) -> nat
    decreases s.len(),
{
    if s.len() == 0 {
        0
    } else {
        count_false(s.drop_last()) + if s.last() {
            0nat
        } else {
            1nat
        }
    }
}

proof fn lemma_count_false_set(s: Seq<bool>, j: int)
    requires
        0 <= j < s.len(),
        !s[j],
    ensures
        count_false(s.update(j, true)) + 1 == count_false(s),
    decreases s.len(),
{
    if j < s.len() - 1 {
        lemma_count_false_set(s.drop_last(), j);
        assert(s.update(j, true).drop_last() =~= s.drop_last().update(j, true));
    } else {
        assert(s.update(j, true).drop_last() =~= s.drop_last());
    }
}

proof fn lemma_count_false_all_true(s: Seq<bool>)
    requires
        forall|j: int| 0 <= j < s.len() ==> s[j],
    ensures
        count_false(s) == 0,
    decreases s.len(),
{
    if s.len() > 0 {
        lemma_count_false_all_true(s.drop_last());
    }
}

proof fn lemma_count_false_all_false(n: nat)
    ensures
        count_false(Seq::new(n, |j: int| false)) == n,
    decreases n,
{
    if n > 0 {
        assert(Seq::new(n, |j: int| false).drop_last() =~= Seq::new((n - 1) as nat, |j: int| false));
        lemma_count_false_all_false((n - 1) as nat);
    }
}

/// Counts the blocked events per domain, in the order the domains first
/// appear.
fn count_blocked(log: &Vec<QueryEvent>) -> (r: (Vec<Vec<char>>, Vec<u64>))
    ensures
        r.0.len() == r.1.len(),
        forall|a: int, b: int| 0 <= a < b < r.0.len() ==> r.0@[a]@ != r.0@[b]@,
        forall|a: int|
            0 <= a < r.0.len() ==> r.1@[a] == blocked_count(event_views(log@), r.0@[a]@)
                && r.1@[a] > 0,
        forall|d: Seq<char>|
            #![trigger blocked_count(event_views(log@), d)]
            blocked_count(event_views(log@), d) > 0 ==> exists|a: int|
                0 <= a < r.0.len() && r.0@[a]@ == d,
{
    let ghost evs = event_views(log@);
    let n = log.len();
    let mut doms: Vec<Vec<char>> = Vec::new();
    let mut cnts: Vec<u64> = Vec::new();
    let mut i: usize = 0;
    while i < n
        invariant
            i <= n == log@.len(),
            evs == event_views(log@),
            doms.len() == cnts.len(),
            forall|a: int, b: int| 0 <= a < b < doms.len() ==> doms@[a]@ != doms@[b]@,
            forall|a: int|
                0 <= a < doms.len() ==> cnts@[a] == blocked_count(evs.take(i as int), doms@[a]@)
                    && cnts@[a] > 0,
            forall|d: Seq<char>|
                #![trigger blocked_count(evs.take(i as int), d)]
                blocked_count(evs.take(i as int), d) > 0 ==> exists|a: int|
                    0 <= a < doms.len() && doms@[a]@ == d,
        decreases n - i,
    {
        let ghost ev = evs[i as int];
        let ghost next = evs.take(i + 1);
        assert(ev == log@[i as int]@);
        if log[i].status == QueryStatus::Blocked {
            let d = chars_of(log[i].domain.as_str());
            let mut j: usize = 0;
            let mut found: usize = doms.len();
            while j < doms.len()
                invariant
                    j <= doms.len(),
                    found == doms.len() || (found < j && doms@[found as int]@ == d@),
                    found == doms.len() ==> forall|q: int| 0 <= q < j ==> doms@[q]@ != d@,
                decreases doms.len() - j,
            {
                if found == doms.len() && eq_chars(&doms[j], &d) {
                    found = j;
                }
                j += 1;
            }
            if found < doms.len() {
                let c = cnts[found];
                proof {
                    lemma_blocked_count_bounded(evs.take(i as int), d@);
                }
                let ghost old_doms = doms@;
                let ghost old_cnts = cnts@;
                cnts.set(found, c + 1);
                assert forall|a: int| 0 <= a < doms.len() implies cnts@[a] == blocked_count(
                    next,
                    doms@[a]@,
                ) && cnts@[a] > 0 by {
                    lemma_blocked_count_step(evs, i as int, doms@[a]@);
                    if a != found {
                        assert(doms@[a]@ != d@);
                    }
                }
                assert forall|e: Seq<char>| #[trigger] blocked_count(next, e) > 0 implies exists|
                    a: int,
                | 0 <= a < doms.len() && doms@[a]@ == e by {
                    lemma_blocked_count_step(evs, i as int, e);
                    if e == d@ {
                        assert(doms@[found as int]@ == e);
                    }
                }
            } else {
                let ghost old_doms = doms@;
                doms.push(d);
                cnts.push(1);
                assert forall|a: int| 0 <= a < doms.len() implies cnts@[a] == blocked_count(
                    next,
                    doms@[a]@,
                ) && cnts@[a] > 0 by {
                    lemma_blocked_count_step(evs, i as int, doms@[a]@);
                    if a < doms.len() - 1 {
                        assert(doms@[a] == old_doms[a]);
                    } else {
                        assert(blocked_count(evs.take(i as int), d@) == 0) by {
                            if blocked_count(evs.take(i as int), d@) > 0 {
                                let q = choose|q: int| 0 <= q < old_doms.len() && old_doms[q]@ == d@;
                                assert(doms@[q]@ == d@);
                            }
                        }
                    }
                }
                assert forall|e: Seq<char>| #[trigger] blocked_count(next, e) > 0 implies exists|
                    a: int,
                | 0 <= a < doms.len() && doms@[a]@ == e by {
                    lemma_blocked_count_step(evs, i as int, e);
                    if e == d@ {
                        assert(doms@[doms.len() - 1]@ == e);
                    } else {
                        let q = choose|q: int| 0 <= q < old_doms.len() && old_doms[q]@ == e;
                        assert(doms@[q]@ == e);
                    }
                }
            }
        } else {
            assert forall|a: int| 0 <= a < doms.len() implies cnts@[a] == blocked_count(
                next,
                doms@[a]@,
            ) && cnts@[a] > 0 by {
                lemma_blocked_count_step(evs, i as int, doms@[a]@);
            }
            assert forall|e: Seq<char>| #[trigger] blocked_count(next, e) > 0 implies exists|
                a: int,
            | 0 <= a < doms.len() && doms@[a]@ == e by {
                lemma_blocked_count_step(evs, i as int, e);
            }
        }
        i += 1;
    }
    assert(evs.take(n as int) =~= evs);
    (doms, cnts)
}

/// The most-blocked domains of the log, at most twenty, by count from the
/// highest.
pub fn top_blocked_of(log: &Vec<QueryEvent>) -> (r: Vec<TopBlocked>)
    ensures
        is_top_blocked(event_views(log@), top_views(r@)),
{
    let ghost evs = event_views(log@);
    let (doms, cnts) = count_blocked(log);
    let m = doms.len();
    let k = if m < TOP_BLOCKED_LIMIT {
        m
    } else {
        TOP_BLOCKED_LIMIT
    };
    let mut taken: Vec<bool> = Vec::new();
    let mut z: usize = 0;
    while z < m
        invariant
            z <= m,
            taken@ == Seq::new(z as nat, |j: int| false),
        decreases m - z,
    {
        taken.push(false);
        assert(taken@ =~= Seq::new((z + 1) as nat, |j: int| false));
        z += 1;
    }
    proof {
        lemma_count_false_all_false(m as nat);
    }
    let mut r: Vec<TopBlocked> = Vec::new();
    let ghost mut idx: Seq<int> = Seq::empty();
    let mut t: usize = 0;
    while t < k
        invariant
            t <= k <= m,
            k == (if m < TOP_BLOCKED_LIMIT {
                m
            } else {
                TOP_BLOCKED_LIMIT
            }),
            m == doms.len() == cnts.len() == taken.len(),
            r.len() == t,
            idx.len() == t,
            count_false(taken@) + t == m,
            forall|a: int|
                0 <= a < t ==> 0 <= #[trigger] idx[a] < m && taken@[idx[a]] && r@[a].domain@
                    == doms@[idx[a]]@ && r@[a].count == cnts@[idx[a]],
            forall|j: int| 0 <= j < m && taken@[j] ==> exists|a: int| 0 <= a < t && idx[a] == j,
            forall|a: int, b: int| 0 <= a < b < t ==> idx[a] != idx[b],
            forall|a: int, b: int| 0 <= a < b < t ==> r@[a].count >= r@[b].count,
            forall|j: int| 0 <= j < m && !taken@[j] && t > 0 ==> cnts@[j] <= r@[t - 1].count,
        decreases k - t,
    {
        let mut best: usize = m;
        let mut j: usize = 0;
        while j < m
            invariant
                j <= m == taken.len() == cnts.len(),
                best == m || (best < j && !taken@[best as int]),
                best < m ==> forall|q: int| 0 <= q < j && !taken@[q] ==> cnts@[q] <= cnts@[best as int],
                best == m ==> forall|q: int| 0 <= q < j ==> taken@[q],
            decreases m - j,
        {
            if !taken[j] && (best == m || cnts[j] > cnts[best]) {
                best = j;
            }
            j += 1;
        }
        if best == m {
            proof {
                lemma_count_false_all_true(taken@);
            }
            assert(false);
        }
        proof {
            lemma_count_false_set(taken@, best as int);
        }
        let ghost old_taken = taken@;
        let ghost old_idx = idx;
        taken.set(best, true);
        r.push(TopBlocked { domain: string_of(&doms[best]), count: cnts[best] });
        proof {
            idx = idx.push(best as int);
            assert forall|jj: int| 0 <= jj < m && taken@[jj] implies exists|a: int|
                0 <= a < t + 1 && idx[a] == jj by {
                if jj == best as int {
                    assert(idx[t as int] == jj);
                } else {
                    assert(old_taken[jj]);
                    let a = choose|a: int| 0 <= a < t && old_idx[a] == jj;
                    assert(idx[a] == jj);
                }
            }
        }
        t += 1;
    }
    proof {
        let dv = doms@.map_values(|d: Vec<char>| d@);
        assert(dv.no_duplicates());
        dv.unique_seq_to_set();
        assert(blocked_domains(evs) =~= dv.to_set()) by {
            assert forall|d: Seq<char>| blocked_domains(evs).contains(d) implies dv.to_set().contains(
                d,
            ) by {
                let a = choose|a: int| 0 <= a < doms.len() && doms@[a]@ == d;
                assert(dv[a] == d);
            }
            assert forall|d: Seq<char>| dv.to_set().contains(d) implies blocked_domains(
                evs,
            ).contains(d) by {
                let a = choose|a: int| 0 <= a < dv.len() && dv[a] == d;
                assert(doms@[a]@ == d);
                assert(cnts@[a] == blocked_count(evs, doms@[a]@) && cnts@[a] > 0);
            }
        }
        let tv = top_views(r@);
        assert forall|a: int| 0 <= a < tv.len() implies tv[a].1 == blocked_count(evs, tv[a].0)
            && tv[a].1 > 0 by {
            let q = idx[a];
            assert(r@[a].domain@ == doms@[q]@ && r@[a].count == cnts@[q]);
            assert(cnts@[q] == blocked_count(evs, doms@[q]@) && cnts@[q] > 0);
        }
        assert forall|a: int, b: int| 0 <= a < b < tv.len() implies tv[a].0 != tv[b].0 && tv[a].1
            >= tv[b].1 by {
            assert(idx[a] != idx[b]);
        }
        assert forall|d: Seq<char>|
            #![trigger blocked_count(evs, d)]
            blocked_count(evs, d) > 0 && !in_ranking(tv, d) implies tv.len() > 0 && blocked_count(
                evs,
                d,
            ) <= tv[tv.len() - 1].1 by {
            let jj = choose|jj: int| 0 <= jj < doms.len() && doms@[jj]@ == d;
            if taken@[jj] {
                let a = choose|a: int| 0 <= a < t && idx[a] == jj;
                assert(tv[a].0 == d);
            }
        }
    }
    r
}

} // verus!
