//! The candidate list: every path that matched the query, ranked by the
//! matcher's order, truncated to the visible rows, with a selection.

use crate::matched_path::{key_eq, key_le, match_view, view_key_le, MatchView, MatchedPath};
use crate::query::Query;
use crate::starting_point::StartingPoint;
use crate::text::seq_concat;
use vstd::multiset::Multiset;
use vstd::prelude::*;

verus! {

broadcast use vstd::seq_lib::group_to_multiset_ensures;

/// The full text of a query buffer.
pub open spec fn query_text(q: Query) -> Seq<char> {
    seq_concat(q.value@.map_values(|s: String| s@))
}

/// The views of the paths that match the query, in input order.
pub open spec fn collect_matches(q: Seq<char>, sp: Seq<char>, paths: Seq<String>) -> Seq<MatchView>
    decreases paths.len(),
{
    if paths.len() == 0 {
        Seq::empty()
    } else {
        let rest = collect_matches(q, sp, paths.drop_last());
        match match_view(q, sp, paths.last()@) {
            Some(v) => rest.push(v),
            None => rest,
        }
    }
}

/// A sequence of views is sorted by the ranking order.
pub open spec fn sorted_views(w: Seq<MatchView>) -> bool {
    forall|i: int, j: int| 0 <= i < j < w.len() ==> view_key_le(w[i], w[j])
}

/// `p` is a permutation of the indices `0..n`.
pub open spec fn is_index_permutation(p: Seq<int>, n: int) -> bool {
    &&& p.len() == n
    &&& forall|t: int| 0 <= t < p.len() ==> 0 <= #[trigger] p[t] < n
    &&& forall|s: int, t: int| 0 <= s < t < p.len() ==> #[trigger] p[s] != #[trigger] p[t]
}

/// `p` rearranges `orig` into `sorted`: the result is the input
/// reordered into the ranking order, and entries that rank equal keep
/// their input order (a stable sort).
pub open spec fn stable_permutation_of(
    p: Seq<int>,
    orig: Seq<MatchedPath>,
    sorted: Seq<MatchedPath>,
) -> bool {
    &&& is_index_permutation(p, orig.len() as int)
    &&& sorted.len() == orig.len()
    &&& forall|t: int| 0 <= t < p.len() ==> sorted[t] == orig[#[trigger] p[t]]
    &&& forall|s: int, t: int|
        0 <= s < t < p.len() && key_eq(sorted[s], sorted[t]) ==> #[trigger] p[s] < #[trigger] p[t]
}

/// `p` arranges the views `all` into the ranking order with rank-equal
/// entries keeping their input order. Exactly one permutation does this,
/// so a list described through it is pinned completely.
pub open spec fn stable_view_arrangement(p: Seq<int>, all: Seq<MatchView>) -> bool {
    &&& is_index_permutation(p, all.len() as int)
    &&& forall|s: int, t: int|
        0 <= s < t < p.len() ==> view_key_le(all[#[trigger] p[s]], all[#[trigger] p[t]])
    &&& forall|s: int, t: int|
        0 <= s < t < p.len() && view_key_eq(all[p[s]], all[p[t]]) ==> #[trigger] p[s]
            < #[trigger] p[t]
}

/// What building a candidate list from the given inputs yields: the list
/// holds the first `visible` entries of the stable ranking-ordered
/// arrangement of every successful match — a pure function of the
/// inputs, ties kept in input order — and selects the first entry when
/// there is one.
pub open spec fn built_from(
    c: Candidates,
    qt: Seq<char>,
    sp: Seq<char>,
    paths: Seq<String>,
    visible: int,
) -> bool {
    let all = collect_matches(qt, sp, paths);
    &&& c.paths@.len() == if all.len() <= visible {
        all.len() as int
    } else {
        visible
    }
    &&& forall|i: int, j: int|
        0 <= i < j < c.paths@.len() ==> key_le(#[trigger] c.paths@[i], #[trigger] c.paths@[j])
    &&& exists|p: Seq<int>|
        {
            &&& #[trigger] stable_view_arrangement(p, all)
            &&& c.paths@.map_values(|m: MatchedPath| m@) == Seq::new(
                c.paths@.len(),
                |t: int| all[p[t]],
            )
        }
    &&& c.selected == if c.paths@.len() == 0 {
        Option::<usize>::None
    } else {
        Option::<usize>::Some(0usize)
    }
}

/// Sorts matched paths in place by the ranking order: distance, then
/// depth, then the relative path. The result is a stable permutation of
/// the input: the same paths, with rank-equal entries in input order.
pub fn sort_matched_paths(v: &mut Vec<MatchedPath>)
    requires
        forall|i: int| 0 <= i < old(v)@.len() ==> (#[trigger] old(v)@[i]).wf(),
    ensures
        final(v)@.len() == old(v)@.len(),
        forall|i: int| 0 <= i < final(v)@.len() ==> (#[trigger] final(v)@[i]).wf(),
        forall|i: int, j: int| 0 <= i < j < final(v)@.len() ==> key_le(final(v)@[i], final(v)@[j]),
        final(v)@.to_multiset() == old(v)@.to_multiset(),
        final(v)@.map_values(|m: MatchedPath| m@).to_multiset() == old(v)@.map_values(
            |m: MatchedPath| m@,
        ).to_multiset(),
        exists|p: Seq<int>| #[trigger] stable_permutation_of(p, old(v)@, final(v)@),
    decreases old(v)@.len(),
{
    let ghost orig = v@;
    if v.len() <= 1 {
        proof {
            let p = Seq::new(orig.len(), |t: int| t);
            assert(stable_permutation_of(p, orig, v@));
        }
        return;
    }
    let ghost mut perm: Seq<int> = Seq::new(orig.len(), |t: int| t);
    let mut i: usize = 1;
    while i < v.len()
        invariant
            1 <= i <= v@.len(),
            v@.len() == orig.len(),
            forall|t: int| 0 <= t < v@.len() ==> (#[trigger] v@[t]).wf(),
            forall|a: int, b: int| 0 <= a < b < i ==> key_le(v@[a], v@[b]),
            v@.to_multiset() == orig.to_multiset(),
            v@.map_values(|m: MatchedPath| m@).to_multiset() == orig.map_values(
                |m: MatchedPath| m@,
            ).to_multiset(),
            perm.len() == orig.len(),
            forall|t: int| 0 <= t < perm.len() ==> 0 <= #[trigger] perm[t] < orig.len(),
            forall|t: int| 0 <= t < perm.len() ==> v@[t] == orig[#[trigger] perm[t]],
            forall|s: int, t: int| 0 <= s < t < perm.len() ==> #[trigger] perm[s] != #[trigger] perm[t],
            forall|t: int| i <= t < perm.len() ==> #[trigger] perm[t] == t,
            forall|s: int, t: int|
                0 <= s < t < i && key_eq(v@[s], v@[t]) ==> #[trigger] perm[s] < #[trigger] perm[t],
        decreases v@.len() - i,
    {
        let ghost before = v@;
        let ghost perm_before = perm;
        proof {
            // every index already sorted in maps to an input index below i
            assert forall|t: int| 0 <= t < i implies #[trigger] perm_before[t] < i by {
                if perm_before[t] >= i {
                    let u = perm_before[t];
                    assert(perm_before[u] == u);
                    assert(perm_before[t] == perm_before[u] && t != u);
                    assert(false);
                }
            }
        }
        let x = v.remove(i);
        let ghost w = v@;
        let ghost perm_w = perm_before.remove(i as int);
        proof {
            perm = perm_w;
            assert(w =~= before.remove(i as int));
            assert(before.contains(before[i as int]));
            assert(perm_before[i as int] == i as int);
            assert(before[i as int] == orig[perm_before[i as int]]);
            assert(x == orig[i as int]);
        }
        let mut k: usize = 0;
        while k < i && crate::matched_path::path_le(&v[k], &x)
            invariant
                k <= i,
                i < before.len(),
                w == v@,
                w == before.remove(i as int),
                x == before[i as int],
                x.wf(),
                w.len() == before.len() - 1,
                forall|t: int| 0 <= t < w.len() ==> (#[trigger] w[t]).wf(),
                forall|t: int| 0 <= t < k ==> key_le(#[trigger] w[t], x),
            decreases i - k,
        {
            k = k + 1;
        }
        proof {
            if k < i {
                assert(!key_le(w[k as int], x));
                crate::matched_path::lemma_key_le_total(w[k as int], x);
                assert(key_le(x, w[k as int]));
            }
        }
        v.insert(k, x);
        proof {
            let after = v@;
            let perm_after = perm_w.insert(k as int, i as int);
            perm = perm_after;
            assert(after =~= w.insert(k as int, x));
            // the prefix of length i + 1 is sorted again
            assert forall|a: int, b: int| 0 <= a < b < i + 1 implies key_le(
                #[trigger] after[a],
                #[trigger] after[b],
            ) by {
                if b < k {
                    assert(after[a] == before[a] && after[b] == before[b]);
                } else if b == k {
                    assert(after[b] == x);
                    assert(after[a] == w[a] && w[a] == before[a]);
                    assert(key_le(w[a], x));
                } else {
                    // b > k, so after[b] == w[b - 1] == before[b - 1]
                    assert(after[b] == w[b - 1]);
                    assert(w[b - 1] == before[b - 1]);
                    if a < k {
                        assert(after[a] == before[a]);
                        assert(key_le(before[a], before[b - 1]));
                    } else if a == k {
                        assert(after[a] == x);
                        assert(key_le(x, w[k as int]));
                        assert(w[k as int] == before[k as int]);
                        if b - 1 > k {
                            assert(key_le(before[k as int], before[b - 1]));
                            crate::matched_path::lemma_key_le_trans(
                                x,
                                before[k as int],
                                before[b - 1],
                            );
                        }
                    } else {
                        assert(after[a] == w[a - 1]);
                        assert(w[a - 1] == before[a - 1]);
                        assert(key_le(before[a - 1], before[b - 1]));
                    }
                }
            }
            // the multiset of elements is unchanged by remove + insert
            lemma_remove_insert_multiset(before, i as int, k as int);
            assert(after.to_multiset() == before.to_multiset());
            lemma_remove_insert_view_multiset(before, i as int, k as int);
            assert(after.map_values(|m: MatchedPath| m@).to_multiset() == before.map_values(
                |m: MatchedPath| m@,
            ).to_multiset());
            assert forall|t: int| 0 <= t < after.len() implies (#[trigger] after[t]).wf() by {
                if t < k {
                    assert(after[t] == w[t]);
                } else if t > k {
                    assert(after[t] == w[t - 1]);
                }
            }
            // the permutation keeps tracking the rearrangement
            assert(perm_after.len() == orig.len());
            assert forall|t: int| 0 <= t < perm_w.len() implies #[trigger] perm_w[t] != i by {
                if t < i {
                    assert(perm_w[t] == perm_before[t]);
                    assert(perm_before[t] < i);
                } else {
                    assert(perm_w[t] == perm_before[t + 1]);
                    assert(perm_before[t + 1] == t + 1);
                }
            }
            assert forall|t: int| 0 <= t < perm_after.len() implies 0 <= #[trigger] perm_after[t]
                < orig.len() by {
                if t < k {
                    assert(perm_after[t] == perm_w[t] && perm_w[t] == perm_before[t]);
                } else if t > k {
                    assert(perm_after[t] == perm_w[t - 1]);
                }
            }
            assert forall|t: int| 0 <= t < perm_after.len() implies after[t] == orig[
                #[trigger] perm_after[t]
            ] by {
                if t < k {
                    assert(after[t] == w[t] && w[t] == before[t]);
                    assert(perm_after[t] == perm_w[t] && perm_w[t] == perm_before[t]);
                } else if t == k {
                    assert(after[t] == x && perm_after[t] == i as int);
                } else {
                    assert(after[t] == w[t - 1]);
                    assert(perm_after[t] == perm_w[t - 1]);
                    if t - 1 < i {
                        assert(w[t - 1] == before[t - 1] && perm_w[t - 1] == perm_before[t - 1]);
                    } else {
                        assert(w[t - 1] == before[t] && perm_w[t - 1] == perm_before[t]);
                    }
                }
            }
            assert forall|s: int, t: int|
                0 <= s < t < perm_after.len() implies #[trigger] perm_after[s]
                != #[trigger] perm_after[t] by {
                let ps = if s < k {
                    perm_w[s]
                } else if s == k {
                    i as int
                } else {
                    perm_w[s - 1]
                };
                let pt = if t < k {
                    perm_w[t]
                } else if t == k {
                    i as int
                } else {
                    perm_w[t - 1]
                };
                assert(perm_after[s] == ps && perm_after[t] == pt);
                if s != k && t != k {
                    let si = if s < k { s } else { s - 1 };
                    let ti = if t < k { t } else { t - 1 };
                    assert(ps == perm_w[si] && pt == perm_w[ti] && si < ti);
                }
            }
            assert forall|t: int| i + 1 <= t < perm_after.len() implies #[trigger] perm_after[t]
                == t by {
                assert(t > k);
                assert(perm_after[t] == perm_w[t - 1]);
                assert(perm_w[t - 1] == perm_before[t]);
            }
            // stability: rank-equal entries of the new prefix keep input order
            assert forall|s: int, t: int|
                0 <= s < t < i + 1 && key_eq(after[s], after[t]) implies #[trigger] perm_after[s]
                < #[trigger] perm_after[t] by {
                if t < k {
                    assert(after[s] == before[s] && after[t] == before[t]);
                    assert(perm_after[s] == perm_before[s] && perm_after[t] == perm_before[t]);
                } else if t == k {
                    assert(perm_after[t] == i as int);
                    assert(perm_after[s] == perm_w[s] && perm_w[s] == perm_before[s]);
                    assert(perm_before[s] < i);
                } else {
                    assert(after[t] == w[t - 1] && w[t - 1] == before[t - 1]);
                    assert(perm_after[t] == perm_w[t - 1] && perm_w[t - 1] == perm_before[t - 1]);
                    if s < k {
                        assert(after[s] == before[s] && perm_after[s] == perm_before[s]);
                        assert(s < t - 1);
                    } else if s == k {
                        // everything at or after the insertion point ranks
                        // strictly above x, so x cannot rank equal to it
                        assert(after[s] == x);
                        assert(key_le(x, w[k as int]) && !key_le(w[k as int], x));
                        assert(key_le(w[k as int], w[t - 1]));
                        if key_le(after[t], x) {
                            crate::matched_path::lemma_key_le_trans(w[k as int], w[t - 1], x);
                        }
                        assert(!key_eq(after[s], after[t]));
                    } else {
                        assert(after[s] == w[s - 1] && w[s - 1] == before[s - 1]);
                        assert(perm_after[s] == perm_w[s - 1] && perm_w[s - 1] == perm_before[s
                            - 1]);
                        assert(s - 1 < t - 1);
                    }
                }
            }
        }
        i = i + 1;
    }
    proof {
        assert(stable_permutation_of(perm, orig, v@));
    }
}

proof fn lemma_remove_insert_multiset(s: Seq<MatchedPath>, i: int, k: int)
    requires
        0 <= i < s.len(),
        0 <= k <= s.len() - 1,
    ensures
        s.remove(i).insert(k, s[i]).to_multiset() == s.to_multiset(),
{
    let w = s.remove(i);
    let after = w.insert(k, s[i]);
    assert(w.to_multiset() =~= s.to_multiset().remove(s[i]));
    assert(after.to_multiset() =~= w.to_multiset().insert(s[i]));
    assert(s.contains(s[i]));
    assert(s.to_multiset().count(s[i]) > 0);
    assert(s.to_multiset().remove(s[i]).insert(s[i]) =~= s.to_multiset());
}

proof fn lemma_remove_insert_view_multiset(s: Seq<MatchedPath>, i: int, k: int)
    requires
        0 <= i < s.len(),
        0 <= k <= s.len() - 1,
    ensures
        s.remove(i).insert(k, s[i]).map_values(|m: MatchedPath| m@).to_multiset() == s.map_values(
            |m: MatchedPath| m@,
        ).to_multiset(),
{
    let f = |m: MatchedPath| m@;
    let w = s.remove(i);
    let after = w.insert(k, s[i]);
    let ms = s.map_values(f);
    assert(w.map_values(f) =~= ms.remove(i));
    assert(after.map_values(f) =~= w.map_values(f).insert(k, f(s[i])));
    assert(ms.remove(i).to_multiset() =~= ms.to_multiset().remove(ms[i]));
    assert(after.map_values(f).to_multiset() =~= ms.remove(i).to_multiset().insert(f(s[i])));
    assert(ms.contains(ms[i]));
    assert(ms.to_multiset().count(ms[i]) > 0);
    assert(ms.to_multiset().remove(ms[i]).insert(ms[i]) =~= ms.to_multiset());
}

/// The ranked candidate list shown on screen, with the selection.
#[derive(Debug)]
pub struct Candidates {
    /// The matched paths, ranked, at most one per visible row.
    pub paths: Vec<MatchedPath>,
    /// The index of the selected row, if any.
    pub selected: Option<usize>,
}

impl Candidates {
    /// The selection stays within the list, an empty list has no
    /// selection, and every entry is a well-formed match.
    pub open spec fn wf(self) -> bool {
        &&& (self.selected matches Some(s) ==> s < self.paths@.len())
        &&& (self.paths@.len() == 0 ==> self.selected is None)
        &&& forall|i: int| 0 <= i < self.paths@.len() ==> (#[trigger] self.paths@[i]).wf()
    }

    /// Matches every path against the query, keeps the successful matches
    /// ranked by the matcher's order, truncates the list to the visible
    /// rows, and selects the first entry when there is one.
    pub fn new(
        visible_paths_length: usize,
        starting_point: &StartingPoint,
        paths: &Vec<String>,
        query: &Query,
    ) -> (r: Candidates)
        requires
            forall|i: int|
                0 <= i < paths@.len() ==> (#[trigger] paths@[i])@.len()
                    >= starting_point.0@.len() && paths@[i]@.take(starting_point.0@.len() as int)
                    == starting_point.0@,
        ensures
            r.wf(),
            built_from(
                r,
                query_text(*query),
                starting_point.0@,
                paths@,
                visible_paths_length as int,
            ),
    {
        let q = query.to_string();
        let ghost qt = query_text(*query);
        let ghost sp = starting_point.0@;
        let mut matched: Vec<MatchedPath> = Vec::new();
        let mut i: usize = 0;
        while i < paths.len()
            invariant
                i <= paths@.len(),
                q@ == qt,
                sp == starting_point.0@,
                forall|t: int|
                    0 <= t < paths@.len() ==> (#[trigger] paths@[t])@.len() >= sp.len()
                        && paths@[t]@.take(sp.len() as int) == sp,
                matched@.map_values(|m: MatchedPath| m@) == collect_matches(
                    qt,
                    sp,
                    paths@.take(i as int),
                ),
                forall|t: int| 0 <= t < matched@.len() ==> (#[trigger] matched@[t]).wf(),
            decreases paths@.len() - i,
        {
            let ghost prev = matched@.map_values(|m: MatchedPath| m@);
            proof {
                assert(paths@.take(i + 1).drop_last() =~= paths@.take(i as int));
                assert(paths@.take(i + 1).last() == paths@[i as int]);
            }
            match MatchedPath::new(q.as_str(), starting_point.as_ref(), paths[i].as_str()) {
                Some(m) => {
                    proof {
                        assert(m@ == match_view(qt, sp, paths@[i as int]@)->Some_0);
                    }
                    matched.push(m);
                    proof {
                        assert(matched@.map_values(|m: MatchedPath| m@) =~= prev.push(
                            match_view(qt, sp, paths@[i as int]@)->Some_0,
                        ));
                    }
                },
                None => {
                    proof {
                        assert(match_view(qt, sp, paths@[i as int]@) is None);
                    }
                },
            }
            i = i + 1;
        }
        proof {
            assert(paths@.take(paths@.len() as int) =~= paths@);
        }
        let ghost all = collect_matches(qt, sp, paths@);
        let ghost collected = matched@;
        sort_matched_paths(&mut matched);
        let ghost sorted_full = matched@;
        let ghost p = choose|p: Seq<int>| #[trigger] stable_permutation_of(
            p,
            collected,
            sorted_full,
        );
        proof {
            assert(stable_permutation_of(p, collected, sorted_full));
            assert(collected.map_values(|m: MatchedPath| m@) == all);
            assert(all.len() == collected.len());
            // the sort's permutation arranges the views stably
            assert forall|s: int, t: int| 0 <= s < t < p.len() implies view_key_le(
                all[#[trigger] p[s]],
                all[#[trigger] p[t]],
            ) by {
                assert(sorted_full[s] == collected[p[s]] && sorted_full[t] == collected[p[t]]);
                assert(all[p[s]] == collected[p[s]]@ && all[p[t]] == collected[p[t]]@);
                assert(key_le(sorted_full[s], sorted_full[t]));
            }
            assert forall|s: int, t: int|
                0 <= s < t < p.len() && view_key_eq(all[p[s]], all[p[t]]) implies #[trigger] p[s]
                < #[trigger] p[t] by {
                assert(all[p[s]] == collected[p[s]]@ && all[p[t]] == collected[p[t]]@);
                assert(sorted_full[s]@ == all[p[s]] && sorted_full[t]@ == all[p[t]]);
                assert(key_eq(sorted_full[s], sorted_full[t]));
            }
            assert(stable_view_arrangement(p, all));
        }
        matched.truncate(visible_paths_length);
        proof {
            assert(matched@ =~= if sorted_full.len() <= visible_paths_length as int {
                sorted_full
            } else {
                sorted_full.take(visible_paths_length as int)
            });
            let mv = matched@.map_values(|m: MatchedPath| m@);
            assert forall|t: int| 0 <= t < matched@.len() implies #[trigger] mv[t] == all[p[t]] by {
                assert(matched@[t] == sorted_full[t]);
                assert(sorted_full[t] == collected[p[t]]);
            }
            assert(matched@.map_values(|m: MatchedPath| m@) =~= Seq::new(
                matched@.len(),
                |t: int| all[p[t]],
            ));
        }
        let selected: Option<usize> = if matched.len() == 0 {
            None
        } else {
            Some(0)
        };
        Candidates { paths: matched, selected }
    }

    /// The ranked matched paths.
    pub fn paths(&self) -> (r: &Vec<MatchedPath>)
        ensures
            r == &self.paths,
    {
        &self.paths
    }

    /// The selected candidate, if any.
    pub fn selected(&self) -> (r: Option<&MatchedPath>)
        requires
            self.wf(),
        ensures
            (r is Some) == (self.selected is Some),
            r matches Some(p) ==> *p == self.paths@[self.selected->Some_0 as int],
    {
        if let Some(s) = self.selected {
            return Some(&self.paths[s]);
        }
        None
    }

    /// Moves the selection one row down, clamped at the end of the list;
    /// selects the first row when nothing is selected. A no-op on an empty
    /// list.
    pub fn move_down(&mut self)
        requires
            old(self).wf(),
        ensures
            final(self).wf(),
            final(self).paths@ == old(self).paths@,
            old(self).paths@.len() == 0 ==> *final(self) == *old(self),
            old(self).paths@.len() > 0 ==> final(self).selected == (match old(self).selected {
                Some(s) => Some(
                    if s < old(self).paths@.len() - 1 {
                        (s + 1) as usize
                    } else {
                        s
                    },
                ),
                None => Some(0usize),
            }),
    {
        let limit = self.paths.len();
        if limit == 0 {
            return;
        }
        if let Some(s) = self.selected {
            if s < limit - 1 {
                self.selected = Some(s + 1);
            }
        } else {
            self.selected = Some(0);
        }
    }

    /// Moves the selection one row up, clamped at the start of the list;
    /// keeps no selection when there is none. A no-op on an empty list.
    pub fn move_up(&mut self)
        requires
            old(self).wf(),
        ensures
            final(self).wf(),
            final(self).paths@ == old(self).paths@,
            old(self).paths@.len() == 0 ==> *final(self) == *old(self),
            old(self).paths@.len() > 0 ==> final(self).selected == (match old(self).selected {
                Some(s) => Some(
                    if s > 0 {
                        (s - 1) as usize
                    } else {
                        s
                    },
                ),
                None => Option::<usize>::None,
            }),
    {
        let limit = self.paths.len();
        if limit == 0 {
            return;
        }
        if let Some(s) = self.selected {
            if s > 0 {
                self.selected = Some(s - 1);
            }
        }
    }
}

/// Two views rank equal: each orders at or before the other.
pub open spec fn view_key_eq(a: MatchView, b: MatchView) -> bool {
    view_key_le(a, b) && view_key_le(b, a)
}

/// The ranking order decides every pair: for any two views one orders at
/// or before the other.
pub proof fn lemma_view_key_le_total(a: MatchView, b: MatchView)
    ensures
        view_key_le(a, b) || view_key_le(b, a),
{
    crate::text::lemma_lex_le_total(a.rel, b.rel);
}

/// When no two entries rank equal, there is only one sorted arrangement:
/// the ranking determines the candidate order completely.
pub proof fn lemma_sorted_arrangement_unique(a: Seq<MatchView>, b: Seq<MatchView>)
    requires
        sorted_views(a),
        sorted_views(b),
        a.to_multiset() == b.to_multiset(),
        forall|i: int, j: int|
            0 <= i < j < a.len() ==> !view_key_eq(#[trigger] a[i], #[trigger] a[j]),
    ensures
        a == b,
    decreases a.len(),
{
    broadcast use vstd::seq_lib::group_to_multiset_ensures;

    vstd::seq_lib::to_multiset_len(a);
    vstd::seq_lib::to_multiset_len(b);
    assert(a.to_multiset().len() == b.to_multiset().len());
    assert(a.len() == b.len());
    if a.len() == 0 {
        assert(a =~= b);
    } else {
        assert(a.to_multiset().count(a[0]) > 0);
        assert(b.to_multiset().count(a[0]) > 0);
        assert(b.contains(a[0]));
        let j = choose|j: int| 0 <= j < b.len() && b[j] == a[0];
        assert(a.to_multiset().count(b[0]) > 0);
        assert(a.contains(b[0]));
        let i = choose|i: int| 0 <= i < a.len() && a[i] == b[0];
        assert(view_key_le(b[0], b[j]) || j == 0);
        assert(view_key_le(a[0], a[i]) || i == 0);
        assert(view_key_le(b[0], a[0]) || b[0] == a[0]);
        assert(view_key_le(a[0], b[0]) || a[0] == b[0]);
        lemma_view_key_le_total(a[0], b[0]);
        assert(view_key_eq(a[0], b[0]) || a[0] == b[0]);
        if a[0] != b[0] {
            // b[0] occurs in a at some i > 0, yet ranks equal to a[0]
            assert(i != 0);
            assert(view_key_le(a[0], a[i]));
            assert(view_key_le(b[0], a[0]));
            assert(view_key_le(a[0], b[0]));
            assert(view_key_eq(a[0], a[i]));
            assert(false);
        }
        let ar = a.drop_first();
        let br = b.drop_first();
        assert(a =~= seq![a[0]] + ar);
        assert(b =~= seq![b[0]] + br);
        vstd::seq_lib::lemma_multiset_commutative(seq![a[0]], ar);
        vstd::seq_lib::lemma_multiset_commutative(seq![b[0]], br);
        assert(seq![a[0]].to_multiset() =~= Multiset::<MatchView>::empty().insert(a[0]));
        assert(seq![b[0]].to_multiset() =~= Multiset::<MatchView>::empty().insert(b[0]));
        assert forall|y: MatchView| ar.to_multiset().count(y) == br.to_multiset().count(
            y,
        ) by {
            assert(a.to_multiset().count(y) == seq![a[0]].to_multiset().count(y)
                + ar.to_multiset().count(y));
            assert(b.to_multiset().count(y) == seq![b[0]].to_multiset().count(y)
                + br.to_multiset().count(y));
        }
        assert(ar.to_multiset() =~= br.to_multiset());
        assert forall|s: int, t: int|
            0 <= s < t < ar.len() implies !view_key_eq(#[trigger] ar[s], #[trigger] ar[t]) by {
            assert(ar[s] == a[s + 1] && ar[t] == a[t + 1]);
        }
        assert forall|s: int, t: int|
            0 <= s < t < ar.len() implies view_key_le(ar[s], ar[t]) by {
            assert(ar[s] == a[s + 1] && ar[t] == a[t + 1]);
        }
        assert forall|s: int, t: int|
            0 <= s < t < br.len() implies view_key_le(br[s], br[t]) by {
            assert(br[s] == b[s + 1] && br[t] == b[t + 1]);
        }
        lemma_sorted_arrangement_unique(ar, br);
        assert(a =~= b);
    }
}

} // verus!
