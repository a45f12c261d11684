//! A candidate path matched against the query: the match positions inside
//! the absolute and the relative representation, the path's depth, the
//! ranking distance, and the highlight chunks used for display.

use crate::text::{eq_ignore_ascii, lex_le, seq_concat, str_eq_ignore_ascii_case};
use crate::unicode::{
    display_width, graphemes_of, grapheme_offset, grapheme_width, segments_match, split_graphemes,
};
use vstd::prelude::*;

verus! {

/// A grapheme cluster that counts as a path separator.
pub open spec fn is_sep_cluster(g: Seq<char>) -> bool {
    g.len() == 1 && (g[0] == '/' || g[0] == '\\')
}

/// How many of the first `n` clusters are path separators.
pub open spec fn sep_count(gs: Seq<Seq<char>>, n: int) -> int
    decreases n,
{
    if n <= 0 {
        0
    } else {
        sep_count(gs, n - 1) + if is_sep_cluster(gs[n - 1]) {
            1int
        } else {
            0int
        }
    }
}

proof fn lemma_sep_count_bound(gs: Seq<Seq<char>>, n: int)
    ensures
        sep_count(gs, n) <= if n <= 0 {
            0int
        } else {
            n
        },
        sep_count(gs, n) >= 0,
    decreases n,
{
    if n > 0 {
        lemma_sep_count_bound(gs, n - 1);
    }
}

/// The depth of a relative path: the number of separator clusters in it.
pub open spec fn depth_of(s: Seq<char>) -> int {
    sep_count(graphemes_of(s), graphemes_of(s).len() as int)
}

/// The relative representation of `abs` under the starting point `sp`:
/// `abs` with the `sp` prefix stripped, and one leading separator after it
/// stripped as well.
pub open spec fn relative_of(sp: Seq<char>, abs: Seq<char>) -> Seq<char> {
    let rest = abs.skip(sp.len() as int);
    if rest.len() > 0 && (rest[0] == '/' || rest[0] == '\\') {
        rest.drop_first()
    } else {
        rest
    }
}

/// The index of the rightmost cluster strictly before `bound` that equals
/// `g` ignoring ASCII case, or -1 if there is none.
pub open spec fn rightmost_match(gs: Seq<Seq<char>>, bound: int, g: Seq<char>) -> int
    decreases bound,
{
    if bound <= 0 {
        -1
    } else if eq_ignore_ascii(gs[bound - 1], g) {
        bound - 1
    } else {
        rightmost_match(gs, bound - 1, g)
    }
}

proof fn lemma_rightmost_match_shape(gs: Seq<Seq<char>>, bound: int, g: Seq<char>)
    requires
        0 <= bound,
    ensures
        -1 <= rightmost_match(gs, bound, g) < bound,
        rightmost_match(gs, bound, g) >= 0 ==> eq_ignore_ascii(
            gs[rightmost_match(gs, bound, g)],
            g,
        ),
    decreases bound,
{
    if bound > 0 && !eq_ignore_ascii(gs[bound - 1], g) {
        lemma_rightmost_match_shape(gs, bound - 1, g);
    }
}

/// The cluster indices matched for the first `n` query clusters, scanning
/// the query from its last cluster with `bound` as the exclusive right
/// limit; `None` when some query cluster cannot be matched.
pub open spec fn match_indices_upto(
    qs: Seq<Seq<char>>,
    gs: Seq<Seq<char>>,
    n: int,
    bound: int,
) -> Option<Seq<int>>
    decreases n,
{
    if n <= 0 {
        Some(Seq::empty())
    } else {
        let j = rightmost_match(gs, bound, qs[n - 1]);
        if j < 0 {
            None
        } else {
            match match_indices_upto(qs, gs, n - 1, j) {
                Some(rest) => Some(rest.push(j)),
                None => None,
            }
        }
    }
}

/// The matched cluster indices of a whole query against a whole haystack.
pub open spec fn match_indices(qs: Seq<Seq<char>>, gs: Seq<Seq<char>>) -> Option<Seq<int>> {
    match_indices_upto(qs, gs, qs.len() as int, gs.len() as int)
}

/// The matched byte offsets of query `q` within the string `path`.
pub open spec fn match_offsets(q: Seq<char>, path: Seq<char>) -> Option<Seq<int>> {
    match match_indices(graphemes_of(q), graphemes_of(path)) {
        Some(idxs) => Some(idxs.map_values(|i: int| grapheme_offset(path, i))),
        None => None,
    }
}

proof fn lemma_match_indices_shape(qs: Seq<Seq<char>>, gs: Seq<Seq<char>>, n: int, bound: int)
    requires
        0 <= n,
        0 <= bound,
    ensures
        match_indices_upto(qs, gs, n, bound) matches Some(idxs) ==> {
            &&& idxs.len() == n
            &&& forall|k: int| 0 <= k < n ==> -1 < #[trigger] idxs[k] < bound
            &&& forall|k: int| 0 <= k < n - 1 ==> #[trigger] idxs[k] < idxs[k + 1]
        },
    decreases n,
{
    if n > 0 {
        let j = rightmost_match(gs, bound, qs[n - 1]);
        lemma_rightmost_match_shape(gs, bound, qs[n - 1]);
        if j >= 0 {
            lemma_match_indices_shape(qs, gs, n - 1, j);
        }
    }
}

/// A sequence of integers is strictly increasing.
pub open spec fn strictly_increasing(ps: Seq<int>) -> bool {
    forall|i: int, j: int| 0 <= i < j < ps.len() ==> ps[i] < ps[j]
}

/// Positions stored as `usize`, seen as mathematical integers.
pub open spec fn pos_ints(ps: Seq<usize>) -> Seq<int> {
    ps.map_values(|p: usize| p as int)
}

/// For every non-empty query that matches, there are exactly as many
/// positions as the query has grapheme clusters, and the positions are
/// strictly increasing byte offsets within the path.
pub proof fn lemma_match_positions_increasing(q: Seq<char>, path: Seq<char>)
    requires
        forall|i: int| 0 <= i < graphemes_of(path).len() ==> (#[trigger] graphemes_of(
            path,
        )[i]).len() > 0,
    ensures
        match_offsets(q, path) matches Some(ps) ==> {
            &&& ps.len() == graphemes_of(q).len()
            &&& strictly_increasing(ps)
        },
{
    let qs = graphemes_of(q);
    let gs = graphemes_of(path);
    lemma_match_indices_shape(qs, gs, qs.len() as int, gs.len() as int);
    crate::unicode::lemma_grapheme_offsets_increase(path);
    if match_indices(qs, gs) is Some {
        let idxs = match_indices(qs, gs)->Some_0;
        let ps = match_offsets(q, path)->Some_0;
        assert forall|i: int, j: int| 0 <= i < j < ps.len() implies ps[i] < ps[j] by {
            lemma_indices_increasing_general(idxs, i, j);
            assert(0 <= idxs[i] < idxs[j] < gs.len());
        }
    }
}

proof fn lemma_indices_increasing_general(idxs: Seq<int>, i: int, j: int)
    requires
        forall|k: int| 0 <= k < idxs.len() - 1 ==> #[trigger] idxs[k] < idxs[k + 1],
        0 <= i < j < idxs.len(),
    ensures
        idxs[i] < idxs[j],
    decreases j - i,
{
    if i + 1 < j {
        lemma_indices_increasing_general(idxs, i, j - 1);
    }
}

/// An empty query matches every path, with an empty position list and
/// distance 0.
pub proof fn lemma_empty_query_matches(q: Seq<char>, path: Seq<char>)
    requires
        graphemes_of(q).len() == 0,
    ensures
        match_offsets(q, path) == Some(Seq::<int>::empty()),
        gaps_sum(Seq::<int>::empty()) == 0,
{
    let idxs = match_indices(graphemes_of(q), graphemes_of(path))->Some_0;
    assert(idxs =~= Seq::<int>::empty());
    assert(idxs.map_values(|i: int| grapheme_offset(path, i)) =~= Seq::<int>::empty());
}

/// The sum of the gaps between successive positions.
pub open spec fn gaps_sum(ps: Seq<int>) -> int
    decreases ps.len(),
{
    if ps.len() <= 1 {
        0
    } else {
        gaps_sum(ps.drop_last()) + (ps[ps.len() - 1] - ps[ps.len() - 2])
    }
}

/// For strictly increasing positions the gaps telescope: the distance is
/// the last position minus the first.
pub proof fn lemma_gaps_telescope(ps: Seq<int>)
    requires
        strictly_increasing(ps),
        ps.len() >= 1,
    ensures
        gaps_sum(ps) == ps[ps.len() - 1] - ps[0],
        gaps_sum(ps) >= 0,
    decreases ps.len(),
{
    if ps.len() > 1 {
        lemma_gaps_telescope(ps.drop_last());
        assert(ps.drop_last()[0] == ps[0]);
        assert(ps.drop_last()[ps.len() - 2] == ps[ps.len() - 2]);
    }
}

/// A perfectly contiguous match of `n` positions has distance `n - 1`.
pub proof fn lemma_contiguous_distance(ps: Seq<int>)
    requires
        ps.len() >= 1,
        forall|k: int| 0 <= k < ps.len() - 1 ==> #[trigger] ps[k + 1] == ps[k] + 1,
    ensures
        gaps_sum(ps) == ps.len() - 1,
    decreases ps.len(),
{
    if ps.len() > 1 {
        lemma_contiguous_distance(ps.drop_last());
        assert forall|k: int| 0 <= k < ps.drop_last().len() - 1 implies #[trigger] ps.drop_last()[k
            + 1] == ps.drop_last()[k] + 1 by {
            assert(ps[k + 1] == ps[k] + 1);
        }
        let k = ps.len() - 2;
        assert(ps[k + 1] == ps[k] + 1);
    }
}

/// Generates the relative representation from the starting point and the
/// absolute path.
pub fn relative(starting_point: &str, absolute: &str) -> (r: String)
    requires
        starting_point@.len() <= absolute@.len(),
        absolute@.take(starting_point@.len() as int) == starting_point@,
    ensures
        r@ == relative_of(starting_point@, absolute@),
{
    let n = starting_point.unicode_len();
    let total = absolute.unicode_len();
    let rest = absolute.substring_char(n, total);
    proof {
        assert(rest@ =~= absolute@.skip(starting_point@.len() as int));
    }
    if rest.unicode_len() > 0 {
        let c = rest.get_char(0);
        if c == '/' || c == '\\' {
            let stripped = rest.substring_char(1, rest.unicode_len());
            proof {
                assert(stripped@ =~= rest@.drop_first());
            }
            return stripped.to_owned();
        }
    }
    rest.to_owned()
}

/// Counts the separator clusters of a relative path.
pub fn depth_from(relative_path: &str) -> (r: usize)
    ensures
        r == depth_of(relative_path@),
{
    let segs = split_graphemes(relative_path);
    let ghost gs = graphemes_of(relative_path@);
    let mut count: usize = 0;
    let mut i: usize = 0;
    while i < segs.len()
        invariant
            segments_match(segs@, relative_path@),
            segs@.len() == gs.len(),
            gs == graphemes_of(relative_path@),
            i <= segs@.len(),
            count == sep_count(gs, i as int),
            count <= i,
        decreases segs@.len() - i,
    {
        proof {
            lemma_sep_count_bound(gs, i as int);
            assert(segs@[i as int].1@ == gs[i as int]);
        }
        let t = &segs[i].1;
        if t.as_str().unicode_len() == 1 {
            let c = t.as_str().get_char(0);
            if c == '/' || c == '\\' {
                count = count + 1;
            }
        }
        i = i + 1;
    }
    count
}

/// `Some(rest + done)` when `o` is `Some(rest)`, `None` otherwise.
spec fn opt_extend(o: Option<Seq<int>>, done: Seq<int>) -> Option<Seq<int>> {
    match o {
        Some(rest) => Some(rest + done),
        None => None,
    }
}

fn rightmost_in(
    psegs: &Vec<(usize, String)>,
    g: &String,
    bound: usize,
    Ghost(path): Ghost<Seq<char>>,
) -> (r: Option<usize>)
    requires
        segments_match(psegs@, path),
        bound <= psegs@.len(),
    ensures
        ({
            let j = rightmost_match(graphemes_of(path), bound as int, g@);
            &&& (r is Some) == (j >= 0)
            &&& (r matches Some(jj) ==> jj == j)
        }),
{
    let ghost gs = graphemes_of(path);
    let mut k: usize = bound;
    while k > 0
        invariant
            segments_match(psegs@, path),
            gs == graphemes_of(path),
            k <= bound <= psegs@.len(),
            rightmost_match(gs, bound as int, g@) == rightmost_match(gs, k as int, g@),
        decreases k,
    {
        proof {
            assert(psegs@[k - 1].1@ == gs[k - 1]);
        }
        if str_eq_ignore_ascii_case(psegs[k - 1].1.as_str(), g.as_str()) {
            return Some(k - 1);
        }
        k = k - 1;
    }
    None
}

fn reverse_positions(v: &Vec<usize>) -> (r: Vec<usize>)
    ensures
        r@.len() == v@.len(),
        forall|k: int| 0 <= k < v@.len() ==> #[trigger] r@[k] == v@[v@.len() - 1 - k],
{
    let mut out: Vec<usize> = Vec::new();
    let mut i: usize = 0;
    while i < v.len()
        invariant
            i <= v@.len(),
            out@.len() == i,
            forall|k: int| 0 <= k < i ==> #[trigger] out@[k] == v@[v@.len() - 1 - k],
        decreases v@.len() - i,
    {
        out.push(v[v.len() - 1 - i]);
        i = i + 1;
    }
    out
}

/// Normalizes the query for a forward-slash path-separator convention:
/// separators need no translation, so the query is returned unchanged.
pub fn normalize_query(query: &str) -> (r: &str)
    ensures
        r@ == query@,
{
    query
}

/// The query with every forward slash replaced by a backslash.
pub open spec fn backslashed(q: Seq<char>) -> Seq<char> {
    q.map_values(|c: char| if c == '/' {
        '\\'
    } else {
        c
    })
}

/// Normalizes the query for a host whose native path separator is the
/// backslash: forward slashes cannot occur in file names there, so every
/// slash the user types is treated as the native separator. A build for
/// such a host routes queries through this before matching; the builds
/// this crate is verified for keep `normalize_query` unchanged.
pub fn normalize_query_backslash(query: &str) -> (r: String)
    ensures
        r@ == backslashed(query@),
{
    let n = query.unicode_len();
    let mut out = String::new();
    let mut i: usize = 0;
    while i < n
        invariant
            n == query@.len(),
            i <= n,
            out@ == backslashed(query@).take(i as int),
        decreases n - i,
    {
        let c = query.get_char(i);
        if c == '/' {
            out.push('\\');
        } else {
            out.push(c);
        }
        proof {
            assert(backslashed(query@)[i as int] == (if query@[i as int] == '/' {
                '\\'
            } else {
                query@[i as int]
            }));
            assert(out@ =~= backslashed(query@).take(i + 1));
        }
        i = i + 1;
    }
    proof {
        assert(backslashed(query@).take(n as int) =~= backslashed(query@));
    }
    out
}

/// Calculates the matched byte offsets of `path` against `query`, scanning
/// the query in reverse and taking for each cluster the rightmost
/// ASCII-case-insensitively equal cluster before the previous match.
pub fn positions_from(query: &str, path: &str) -> (r: Option<Vec<usize>>)
    ensures
        seq_concat(graphemes_of(path@)) == path@,
        forall|i: int| 0 <= i < graphemes_of(path@).len() ==> (#[trigger] graphemes_of(
            path@,
        )[i]).len() > 0,
        seq_concat(graphemes_of(query@)) == query@,
        forall|i: int| 0 <= i < graphemes_of(query@).len() ==> (#[trigger] graphemes_of(
            query@,
        )[i]).len() > 0,
        (r is Some) == (match_offsets(query@, path@) is Some),
        r matches Some(v) ==> pos_ints(v@) == match_offsets(query@, path@)->Some_0,
{
    let qsegs = split_graphemes(normalize_query(query));
    let psegs = split_graphemes(path);
    proof {
        crate::unicode::lemma_segments_facts(qsegs@, query@);
        crate::unicode::lemma_segments_facts(psegs@, path@);
    }
    let ghost qs = graphemes_of(query@);
    let ghost gs = graphemes_of(path@);
    let mut rev: Vec<usize> = Vec::new();
    let ghost done = Seq::<int>::empty();
    let mut bound: usize = psegs.len();
    let mut n: usize = qsegs.len();
    proof {
        if match_indices(qs, gs) is Some {
            let rest = match_indices(qs, gs)->Some_0;
            assert(rest + done =~= rest);
        }
    }
    while n > 0
        invariant
            segments_match(qsegs@, query@),
            segments_match(psegs@, path@),
            qs == graphemes_of(query@),
            gs == graphemes_of(path@),
            n <= qsegs@.len(),
            bound <= psegs@.len(),
            done.len() == qsegs@.len() - n,
            rev@.len() == done.len(),
            forall|k: int| 0 <= k < rev@.len() ==> #[trigger] rev@[k] == grapheme_offset(
                path@,
                done[done.len() - 1 - k],
            ),
            forall|k: int| 0 <= k < done.len() ==> 0 <= #[trigger] done[k] < gs.len(),
            opt_extend(match_indices_upto(qs, gs, n as int, bound as int), done) == match_indices(
                qs,
                gs,
            ),
        decreases n,
    {
        proof {
            assert(qsegs@[n - 1].1@ == qs[n - 1]);
        }
        let found = rightmost_in(&psegs, &qsegs[n - 1].1, bound, Ghost(path@));
        match found {
            None => {
                proof {
                    assert(match_indices_upto(qs, gs, n as int, bound as int) is None);
                    assert(match_indices(qs, gs) is None);
                    crate::unicode::lemma_segments_facts(qsegs@, query@);
                    crate::unicode::lemma_segments_facts(psegs@, path@);
                }
                return None;
            },
            Some(j) => {
                proof {
                    lemma_rightmost_match_shape(gs, bound as int, qs[n - 1]);
                    let upto_prev = match_indices_upto(qs, gs, n - 1, j as int);
                    let upto_cur = match_indices_upto(qs, gs, n as int, bound as int);
                    if upto_prev is Some {
                        let rest = upto_prev->Some_0;
                        assert(upto_cur == Some(rest.push(j as int)));
                        assert(rest.push(j as int) + done =~= rest + (seq![j as int] + done));
                    } else {
                        assert(upto_cur is None);
                    }
                }
                let ghost old_done = done;
                proof {
                    done = seq![j as int] + done;
                    assert forall|k: int| 0 <= k < done.len() implies 0 <= #[trigger] done[k]
                        < gs.len() by {
                        if k > 0 {
                            assert(done[k] == old_done[k - 1]);
                        }
                    }
                }
                rev.push(psegs[j].0);
                proof {
                    assert(psegs@[j as int].0 == grapheme_offset(path@, j as int));
                    assert forall|k: int| 0 <= k < rev@.len() implies #[trigger] rev@[k]
                        == grapheme_offset(path@, done[done.len() - 1 - k]) by {
                        if k < rev@.len() - 1 {
                            assert(done[done.len() - 1 - k] == old_done[old_done.len() - 1 - k]);
                        } else {
                            assert(done[0] == j as int);
                        }
                    }
                }
                bound = j;
                n = n - 1;
            },
        }
    }
    proof {
        assert(match_indices_upto(qs, gs, 0, bound as int) == Some(Seq::<int>::empty()));
        assert(Seq::<int>::empty() + done =~= done);
        assert(match_indices(qs, gs) == Some(done));
        crate::unicode::lemma_segments_facts(qsegs@, query@);
        crate::unicode::lemma_segments_facts(psegs@, path@);
    }
    let out = reverse_positions(&rev);
    proof {
        let offs = done.map_values(|i: int| grapheme_offset(path@, i));
        assert forall|k: int| 0 <= k < out@.len() implies #[trigger] pos_ints(out@)[k]
            == offs[k] by {
            assert(out@[k] == rev@[rev@.len() - 1 - k]);
            assert(rev@[rev@.len() - 1 - k] == grapheme_offset(
                path@,
                done[done.len() - 1 - (rev@.len() - 1 - k)],
            ));
            assert(done.len() - 1 - (rev@.len() - 1 - k) == k);
        }
        assert(pos_ints(out@) =~= done.map_values(|i: int| grapheme_offset(path@, i)));
    }
    Some(out)
}

/// The display width of the first `n` clusters.
pub open spec fn width_sum_upto(gs: Seq<Seq<char>>, n: int) -> int
    decreases n,
{
    if n <= 0 {
        0
    } else {
        width_sum_upto(gs, n - 1) + display_width(gs[n - 1])
    }
}

/// The display width of the whole string, cluster by cluster.
pub open spec fn total_width(gs: Seq<Seq<char>>) -> int {
    width_sum_upto(gs, gs.len() as int)
}

/// The display width of the clusters from `k` to the end.
pub open spec fn suffix_width(gs: Seq<Seq<char>>, k: int) -> int {
    total_width(gs) - width_sum_upto(gs, k)
}

proof fn lemma_width_sum_nonneg(gs: Seq<Seq<char>>, n: int)
    ensures
        width_sum_upto(gs, n) >= 0,
        forall|m: int| 0 <= m <= n ==> #[trigger] width_sum_upto(gs, m) <= width_sum_upto(gs, n),
    decreases n,
{
    if n > 0 {
        lemma_width_sum_nonneg(gs, n - 1);
    }
}

/// The smallest index at or after `k` whose suffix fits the budget; the
/// length of `gs` when not even the empty suffix is reached earlier.
pub open spec fn first_fit(gs: Seq<Seq<char>>, budget: int, k: int) -> int
    decreases gs.len() - k,
{
    if k >= gs.len() {
        gs.len() as int
    } else if suffix_width(gs, k) <= budget {
        k
    } else {
        first_fit(gs, budget, k + 1)
    }
}

/// Where the displayed part of the string starts. When the whole string
/// fits `max_width` it starts at cluster 0. Otherwise it starts at the
/// first cluster of the longest suffix whose width fits `max_width` less
/// the three columns of the ellipsis; when not even the last cluster
/// fits, that longest suffix is the empty one and everything is elided.
pub open spec fn chunk_start(gs: Seq<Seq<char>>, max_width: int) -> int {
    if total_width(gs) <= max_width {
        0
    } else {
        let budget = if max_width >= 3 {
            max_width - 3
        } else {
            0
        };
        first_fit(gs, budget, 0)
    }
}

/// Whether cluster `k` of `s` starts at one of the matched byte offsets.
pub open spec fn matched_at(s: Seq<char>, positions: Seq<int>, k: int) -> bool {
    exists|t: int| 0 <= t < positions.len() && positions[t] == grapheme_offset(s, k)
}

/// Adds one cluster to a chunk list, merging it into the last chunk when
/// the matched flag is the same, and opening a new chunk otherwise.
pub open spec fn merge_step(
    acc: Seq<(Seq<char>, bool)>,
    g: Seq<char>,
    fl: bool,
) -> Seq<(Seq<char>, bool)> {
    if acc.len() > 0 && acc.last().1 == fl {
        acc.update(acc.len() - 1, (acc.last().0 + g, fl))
    } else {
        acc.push((g, fl))
    }
}

/// The chunks formed by folding the clusters of `s` from `start` up to
/// `k` onto `base`; the first unmatched run merges into an unmatched
/// chunk already at the end of `base`.
pub open spec fn merged_from(
    s: Seq<char>,
    positions: Seq<int>,
    base: Seq<(Seq<char>, bool)>,
    start: int,
    k: int,
) -> Seq<(Seq<char>, bool)>
    decreases k - start,
{
    if k <= start {
        base
    } else {
        merge_step(
            merged_from(s, positions, base, start, k - 1),
            graphemes_of(s)[k - 1],
            matched_at(s, positions, k - 1),
        )
    }
}

/// The chunk base the kept clusters are folded onto: the ellipsis chunk
/// when a prefix was elided, nothing otherwise.
pub open spec fn chunk_base(start: int) -> Seq<(Seq<char>, bool)> {
    if start > 0 {
        seq![("..."@, false)]
    } else {
        Seq::empty()
    }
}

/// The chunk list for displaying `s` with the given matched byte offsets
/// under the column budget `max_width`: maximal runs of clusters sharing
/// one flag, with an elided prefix shown as `...` at the head of the
/// first unmatched run.
pub open spec fn chunks_of(s: Seq<char>, positions: Seq<int>, max_width: int) -> Seq<
    (Seq<char>, bool),
> {
    let gs = graphemes_of(s);
    let start = chunk_start(gs, max_width);
    merged_from(s, positions, chunk_base(start), start, gs.len() as int)
}

/// The concatenated text of a chunk list.
pub open spec fn chunk_concat(cs: Seq<(Seq<char>, bool)>) -> Seq<char>
    decreases cs.len(),
{
    if cs.len() == 0 {
        Seq::empty()
    } else {
        chunk_concat(cs.drop_last()) + cs.last().0
    }
}

/// The concatenation of clusters `a` up to `b`.
pub open spec fn concat_range(gs: Seq<Seq<char>>, a: int, b: int) -> Seq<char>
    decreases b - a,
{
    if b <= a {
        Seq::empty()
    } else {
        concat_range(gs, a, b - 1) + gs[b - 1]
    }
}

proof fn lemma_merge_step_concat(acc: Seq<(Seq<char>, bool)>, g: Seq<char>, fl: bool)
    ensures
        chunk_concat(merge_step(acc, g, fl)) == chunk_concat(acc) + g,
{
    if acc.len() > 0 && acc.last().1 == fl {
        let upd = acc.update(acc.len() - 1, (acc.last().0 + g, fl));
        assert(upd.drop_last() =~= acc.drop_last());
        assert(chunk_concat(upd) == chunk_concat(acc.drop_last()) + (acc.last().0 + g));
        assert(chunk_concat(acc.drop_last()) + (acc.last().0 + g) =~= (chunk_concat(
            acc.drop_last(),
        ) + acc.last().0) + g);
    } else {
        let pushed = acc.push((g, fl));
        assert(pushed.drop_last() =~= acc);
        assert(pushed.last() == (g, fl));
    }
}

proof fn lemma_merged_from_concat(
    s: Seq<char>,
    positions: Seq<int>,
    base: Seq<(Seq<char>, bool)>,
    start: int,
    k: int,
)
    ensures
        chunk_concat(merged_from(s, positions, base, start, k)) == chunk_concat(base)
            + concat_range(graphemes_of(s), start, k),
    decreases k - start,
{
    if k <= start {
        assert(concat_range(graphemes_of(s), start, k).len() == 0);
        assert(chunk_concat(base) + concat_range(graphemes_of(s), start, k) =~= chunk_concat(base));
    } else {
        lemma_merged_from_concat(s, positions, base, start, k - 1);
        lemma_merge_step_concat(
            merged_from(s, positions, base, start, k - 1),
            graphemes_of(s)[k - 1],
            matched_at(s, positions, k - 1),
        );
        assert((chunk_concat(base) + concat_range(graphemes_of(s), start, k - 1)) + graphemes_of(
            s,
        )[k - 1] =~= chunk_concat(base) + (concat_range(graphemes_of(s), start, k - 1)
            + graphemes_of(s)[k - 1]));
    }
}

proof fn lemma_concat_range_split(gs: Seq<Seq<char>>, a: int, m: int, b: int)
    requires
        a <= m <= b,
    ensures
        concat_range(gs, a, b) == concat_range(gs, a, m) + concat_range(gs, m, b),
    decreases b - m,
{
    if m == b {
        assert(concat_range(gs, a, b) + concat_range(gs, b, b) =~= concat_range(gs, a, b));
    } else {
        lemma_concat_range_split(gs, a, m + 1, b);
        assert(concat_range(gs, a, m + 1) == concat_range(gs, a, m) + gs[m]);
        lemma_concat_range_shift(gs, a, m, b);
    }
}

proof fn lemma_concat_range_shift(gs: Seq<Seq<char>>, a: int, m: int, b: int)
    requires
        a <= m < b,
    ensures
        (concat_range(gs, a, m) + gs[m]) + concat_range(gs, m + 1, b) =~= concat_range(gs, a, m)
            + concat_range(gs, m, b),
    decreases b - m,
{
    let pre = concat_range(gs, a, m);
    if b == m + 1 {
        assert(concat_range(gs, m, m + 1) =~= concat_range(gs, m, m) + gs[m]);
        assert(concat_range(gs, m, m).len() == 0);
        assert(concat_range(gs, m + 1, m + 1).len() == 0);
        assert((pre + gs[m]) + concat_range(gs, m + 1, b) =~= pre + concat_range(gs, m, b));
    } else {
        lemma_concat_range_shift(gs, a, m, b - 1);
        assert(concat_range(gs, m + 1, b) == concat_range(gs, m + 1, b - 1) + gs[b - 1]);
        assert(concat_range(gs, m, b) == concat_range(gs, m, b - 1) + gs[b - 1]);
        assert((pre + gs[m]) + (concat_range(gs, m + 1, b - 1) + gs[b - 1]) =~= ((pre + gs[m])
            + concat_range(gs, m + 1, b - 1)) + gs[b - 1]);
        assert((pre + concat_range(gs, m, b - 1)) + gs[b - 1] =~= pre + (concat_range(gs, m, b - 1)
            + gs[b - 1]));
    }
}

proof fn lemma_concat_range_is_take(gs: Seq<Seq<char>>, n: int)
    requires
        0 <= n <= gs.len(),
    ensures
        concat_range(gs, 0, n) == seq_concat(gs.take(n)),
    decreases n,
{
    if n == 0 {
        assert(seq_concat(gs.take(0)).len() == 0);
        assert(concat_range(gs, 0, 0) =~= seq_concat(gs.take(0)));
    } else {
        lemma_concat_range_is_take(gs, n - 1);
        crate::text::lemma_seq_concat_take_succ(gs, n - 1);
    }
}

/// Chunk round-trip: concatenating the chunk texts gives exactly the kept
/// suffix of the string, preceded by the ellipsis when a prefix was
/// elided; and the string splits into the elided prefix plus that suffix.
pub proof fn lemma_chunks_round_trip(s: Seq<char>, positions: Seq<int>, max_width: int)
    requires
        seq_concat(graphemes_of(s)) == s,
    ensures
        ({
            let gs = graphemes_of(s);
            let start = chunk_start(gs, max_width);
            &&& 0 <= start <= gs.len()
            &&& chunk_concat(chunks_of(s, positions, max_width)) == (if start > 0 {
                "..."@
            } else {
                Seq::<char>::empty()
            }) + concat_range(gs, start, gs.len() as int)
            &&& s == concat_range(gs, 0, start) + concat_range(gs, start, gs.len() as int)
        }),
{
    let gs = graphemes_of(s);
    let start = chunk_start(gs, max_width);
    lemma_first_fit_range(gs, if max_width >= 3 { max_width - 3 } else { 0 }, 0);
    lemma_merged_from_concat(s, positions, chunk_base(start), start, gs.len() as int);
    if start > 0 {
        let ell = chunk_base(start);
        assert(ell.drop_last().len() == 0);
        assert(chunk_concat(ell.drop_last()).len() == 0);
        assert(chunk_concat(ell) == chunk_concat(ell.drop_last()) + ell.last().0);
        assert(chunk_concat(ell) =~= "..."@);
    } else {
        assert(chunk_concat(chunk_base(start)).len() == 0);
        assert(chunk_concat(chunk_base(start)) + concat_range(gs, start, gs.len() as int)
            =~= concat_range(gs, start, gs.len() as int));
        assert(Seq::<char>::empty() + concat_range(gs, start, gs.len() as int) =~= concat_range(
            gs,
            start,
            gs.len() as int,
        ));
    }
    lemma_concat_range_split(gs, 0, start, gs.len() as int);
    lemma_concat_range_is_take(gs, gs.len() as int);
    assert(gs.take(gs.len() as int) =~= gs);
}

proof fn lemma_first_fit_range(gs: Seq<Seq<char>>, budget: int, k: int)
    requires
        0 <= k <= gs.len(),
    ensures
        k <= first_fit(gs, budget, k) <= gs.len(),
    decreases gs.len() - k,
{
    if k < gs.len() && suffix_width(gs, k) > budget {
        lemma_first_fit_range(gs, budget, k + 1);
    }
}

proof fn lemma_first_fit_props(gs: Seq<Seq<char>>, budget: int, k: int)
    requires
        0 <= k <= gs.len(),
        0 <= budget,
    ensures
        k <= first_fit(gs, budget, k) <= gs.len(),
        suffix_width(gs, first_fit(gs, budget, k)) <= budget,
        forall|j: int| k <= j < first_fit(gs, budget, k) ==> #[trigger] suffix_width(gs, j)
            > budget,
    decreases gs.len() - k,
{
    if k >= gs.len() {
        assert(suffix_width(gs, gs.len() as int) == 0);
    } else if suffix_width(gs, k) > budget {
        lemma_first_fit_props(gs, budget, k + 1);
    }
}

/// When the string is wider than the budget, the display starts at the
/// first cluster of the longest suffix whose width fits the budget left
/// after the three ellipsis columns: that suffix fits, every longer one
/// does not, and at least one cluster is elided.
pub proof fn lemma_chunk_start_budget(gs: Seq<Seq<char>>, max_width: int)
    requires
        total_width(gs) > max_width,
        max_width >= 0,
    ensures
        ({
            let budget = if max_width >= 3 {
                max_width - 3
            } else {
                0
            };
            let start = chunk_start(gs, max_width);
            &&& 0 < start <= gs.len()
            &&& suffix_width(gs, start) <= budget
            &&& forall|j: int| 0 <= j < start ==> #[trigger] suffix_width(gs, j) > budget
        }),
{
    let budget = if max_width >= 3 {
        max_width - 3
    } else {
        0
    };
    lemma_first_fit_props(gs, budget, 0);
    assert(width_sum_upto(gs, 0) == 0);
    assert(suffix_width(gs, 0) == total_width(gs));
    assert(suffix_width(gs, 0) > budget);
}

/// One maximal run of clusters sharing the same matched flag, for display.
#[derive(Debug)]
pub struct Chunk {
    pub value: String,
    pub matched: bool,
}

impl View for Chunk {
    type V = (Seq<char>, bool);

    open spec fn view(&self) -> (Seq<char>, bool) {
        (self.value@, self.matched)
    }
}

impl Chunk {
    /// Whether this run of text is part of the match.
    pub fn matched(&self) -> (r: bool)
        ensures
            r == self.matched,
    {
        self.matched
    }
}

fn contains_position(positions: &Vec<usize>, x: usize) -> (r: bool)
    ensures
        r == exists|t: int| 0 <= t < positions@.len() && positions@[t] == x,
{
    let mut i: usize = 0;
    while i < positions.len()
        invariant
            i <= positions@.len(),
            forall|t: int| 0 <= t < i ==> positions@[t] != x,
        decreases positions@.len() - i,
    {
        if positions[i] == x {
            return true;
        }
        i = i + 1;
    }
    false
}

fn prefix_widths(segs: &Vec<(usize, String)>, Ghost(s): Ghost<Seq<char>>) -> (pw: Vec<u128>)
    requires
        segments_match(segs@, s),
    ensures
        pw@.len() == segs@.len() + 1,
        forall|i: int| 0 <= i < pw@.len() ==> #[trigger] pw@[i] == width_sum_upto(
            graphemes_of(s),
            i,
        ),
{
    let ghost gs = graphemes_of(s);
    let ghost big: int = usize::MAX as int;
    let mut pw: Vec<u128> = Vec::new();
    pw.push(0);
    let mut i: usize = 0;
    while i < segs.len()
        invariant
            segments_match(segs@, s),
            gs == graphemes_of(s),
            i <= segs@.len(),
            pw@.len() == i + 1,
            forall|j: int| 0 <= j < pw@.len() ==> #[trigger] pw@[j] == width_sum_upto(gs, j),
            width_sum_upto(gs, i as int) <= i * (usize::MAX as int),
        decreases segs@.len() - i,
    {
        proof {
            assert(segs@[i as int].1@ == gs[i as int]);
        }
        let w = grapheme_width(segs[i].1.as_str());
        proof {
            assert(display_width(gs[i as int]) == w);
            assert(w as int <= usize::MAX as int);
            assert((i + 1) * (usize::MAX as int) == i * (usize::MAX as int) + (
            usize::MAX as int));
            assert((i + 1) as int <= u64::MAX as int);
            assert(((i + 1) as int) * (usize::MAX as int) <= (u64::MAX as int) * (
            usize::MAX as int)) by (nonlinear_arith)
                requires
                    (i + 1) as int <= u64::MAX as int,
                    0 <= (i + 1) as int,
                    0 <= usize::MAX as int,
            ;
        }
        let last = pw[i];
        pw.push(last + (w as u128));
        i = i + 1;
    }
    pw
}

/// Splits `path` into highlight chunks under the column budget
/// `max_width`: if the path's display width exceeds the budget, the
/// longest fitting suffix is kept behind an unmatched `...` chunk; the
/// kept clusters are then merged into maximal runs by whether their byte
/// offset is among `positions`.
pub fn chunks_from(path: &str, positions: &Vec<usize>, max_width: usize) -> (r: Vec<Chunk>)
    ensures
        r@.map_values(|c: Chunk| c@) == chunks_of(path@, pos_ints(positions@), max_width as int),
        seq_concat(graphemes_of(path@)) == path@,
{
    let segs = split_graphemes(path);
    proof {
        crate::unicode::lemma_segments_facts(segs@, path@);
    }
    let ghost gs = graphemes_of(path@);
    let n = segs.len();
    let pw = prefix_widths(&segs, Ghost(path@));
    let total = pw[n];
    let mut start: usize = 0;
    if total > (max_width as u128) {
        let budget: u128 = if max_width >= 3 {
            (max_width - 3) as u128
        } else {
            0
        };
        let ghost bspec: int = if max_width as int >= 3 {
            max_width as int - 3
        } else {
            0
        };
        proof {
            lemma_width_sum_nonneg(gs, gs.len() as int);
        }
        let mut k: usize = 0;
        while k < n && total - pw[k] > budget
            invariant
                segs@.len() == n == gs.len(),
                pw@.len() == n + 1,
                forall|j: int| 0 <= j < pw@.len() ==> #[trigger] pw@[j] == width_sum_upto(gs, j),
                total == total_width(gs),
                budget == bspec,
                0 <= k <= n,
                first_fit(gs, bspec, 0) == first_fit(gs, bspec, k as int),
                forall|j: int| 0 <= j <= n ==> width_sum_upto(gs, j) <= total,
            decreases n - k,
        {
            k = k + 1;
        }
        proof {
            if k < n {
                assert(suffix_width(gs, k as int) <= bspec);
                assert(first_fit(gs, bspec, k as int) == k as int);
            } else {
                assert(first_fit(gs, bspec, k as int) == gs.len());
            }
        }
        start = k;
        proof {
            assert(chunk_start(gs, max_width as int) == k as int);
        }
    } else {
        proof {
            assert(chunk_start(gs, max_width as int) == 0);
        }
    }
    let mut chunks: Vec<Chunk> = Vec::new();
    let ghost body_start: int = start as int;
    let ghost base: Seq<(Seq<char>, bool)> = chunk_base(body_start);
    if start > 0 {
        chunks.push(Chunk { value: "...".to_owned(), matched: false });
    }
    let mut k: usize = start;
    proof {
        assert(chunks@.map_values(|c: Chunk| c@) =~= base);
        assert(merged_from(path@, pos_ints(positions@), base, body_start, body_start) == base);
    }
    while k < n
        invariant
            segments_match(segs@, path@),
            gs == graphemes_of(path@),
            segs@.len() == n == gs.len(),
            body_start <= k <= n,
            base == chunk_base(body_start),
            chunks@.map_values(|c: Chunk| c@) == merged_from(
                path@,
                pos_ints(positions@),
                base,
                body_start,
                k as int,
            ),
        decreases n - k,
    {
        proof {
            assert(segs@[k as int].1@ == gs[k as int]);
            assert(segs@[k as int].0 == grapheme_offset(path@, k as int));
        }
        let fl = contains_position(positions, segs[k].0);
        proof {
            if fl {
                let t = choose|t: int|
                    0 <= t < positions@.len() && positions@[t] == segs@[k as int].0;
                assert(pos_ints(positions@)[t] == grapheme_offset(path@, k as int));
            }
            if matched_at(path@, pos_ints(positions@), k as int) {
                let t = choose|t: int|
                    0 <= t < pos_ints(positions@).len() && pos_ints(positions@)[t]
                        == grapheme_offset(path@, k as int);
                assert(positions@[t] == segs@[k as int].0);
            }
            assert(fl == matched_at(path@, pos_ints(positions@), k as int));
        }
        let ghost acc = merged_from(path@, pos_ints(positions@), base, body_start, k as int);
        proof {
            assert(chunks@.map_values(|c: Chunk| c@).len() == chunks@.len());
            assert(acc.len() == chunks@.len());
        }
        let m = chunks.len();
        let mut merged: bool = false;
        if m > 0 {
            proof {
                assert(acc[m - 1] == chunks@[m - 1]@);
                assert(acc.last().1 == chunks@[m - 1].matched);
            }
            if chunks[m - 1].matched == fl {
                merged = true;
            }
        }
        if merged {
            let mut c = chunks.pop().unwrap();
            proof {
                assert(c@ == acc.last());
            }
            c.value.append(segs[k].1.as_str());
            chunks.push(c);
            proof {
                let next = merge_step(acc, gs[k as int], fl);
                assert(next =~= acc.update(acc.len() - 1, (acc.last().0 + gs[k as int], fl)));
                let nv = chunks@.map_values(|c: Chunk| c@);
                assert forall|j: int| 0 <= j < nv.len() implies nv[j] == next[j] by {
                    assert(nv[j] == chunks@[j]@);
                    if j < nv.len() - 1 {
                        assert(nv[j] == acc[j]);
                    }
                }
                assert(nv =~= next);
            }
        } else {
            chunks.push(Chunk { value: segs[k].1.clone(), matched: fl });
            proof {
                let next = merge_step(acc, gs[k as int], fl);
                if acc.len() > 0 {
                    assert(acc.last().1 != fl);
                }
                assert(next =~= acc.push((gs[k as int], fl)));
                let nv = chunks@.map_values(|c: Chunk| c@);
                assert forall|j: int| 0 <= j < nv.len() implies nv[j] == next[j] by {
                    assert(nv[j] == chunks@[j]@);
                    if j < nv.len() - 1 {
                        assert(nv[j] == acc[j]);
                    }
                }
                assert(nv =~= next);
            }
        }
        k = k + 1;
    }
    proof {
        assert(chunks@.map_values(|c: Chunk| c@) == chunks_of(
            path@,
            pos_ints(positions@),
            max_width as int,
        ));
    }
    chunks
}

/// A candidate file path that matched the query.
#[derive(Debug)]
pub struct MatchedPath {
    /// The absolute path.
    pub absolute: String,
    /// The path relative to the starting point, with one leading separator
    /// stripped.
    pub relative: String,
    /// The number of path separators in the relative representation.
    pub depth: usize,
    /// The matched byte offsets within the absolute path.
    pub absolute_positions: Vec<usize>,
    /// The matched byte offsets within the relative path.
    pub relative_positions: Vec<usize>,
}

impl MatchedPath {
    /// Both position lists are strictly increasing byte offsets.
    pub open spec fn wf(self) -> bool {
        &&& strictly_increasing(pos_ints(self.absolute_positions@))
        &&& strictly_increasing(pos_ints(self.relative_positions@))
    }

    /// The ranking distance: the sum of the gaps between successive
    /// relative match positions.
    pub open spec fn dist(self) -> int {
        gaps_sum(pos_ints(self.relative_positions@))
    }

    /// Matches `absolute` (which must extend the starting point) against
    /// the query, in both its absolute and its relative representation.
    /// Returns a candidate exactly when every query cluster can be matched
    /// in both representations.
    pub fn new(query: &str, starting_point: &str, absolute: &str) -> (r: Option<MatchedPath>)
        requires
            starting_point@.len() <= absolute@.len(),
            absolute@.take(starting_point@.len() as int) == starting_point@,
        ensures
            ({
                let rel = relative_of(starting_point@, absolute@);
                &&& (r is Some) == (match_offsets(query@, absolute@) is Some && match_offsets(
                    query@,
                    rel,
                ) is Some)
                &&& r matches Some(m) ==> {
                    &&& m.absolute@ == absolute@
                    &&& m.relative@ == rel
                    &&& m.depth == depth_of(rel)
                    &&& pos_ints(m.absolute_positions@) == match_offsets(
                        query@,
                        absolute@,
                    )->Some_0
                    &&& pos_ints(m.relative_positions@) == match_offsets(query@, rel)->Some_0
                    &&& m.wf()
                }
            }),
    {
        let rel = relative(starting_point, absolute);
        let depth = depth_from(rel.as_str());
        let absolute_positions = match positions_from(query, absolute) {
            Some(v) => v,
            None => {
                return None;
            },
        };
        let relative_positions = match positions_from(query, rel.as_str()) {
            Some(v) => v,
            None => {
                return None;
            },
        };
        proof {
            lemma_match_positions_increasing(query@, absolute@);
            lemma_match_positions_increasing(query@, rel@);
            lemma_pos_ints_increasing(absolute_positions@);
            lemma_pos_ints_increasing(relative_positions@);
        }
        Some(
            MatchedPath {
                absolute: absolute.to_owned(),
                relative: rel,
                depth,
                absolute_positions,
                relative_positions,
            },
        )
    }

    /// The absolute path.
    pub fn absolute(&self) -> (r: &str)
        ensures
            r@ == self.absolute@,
    {
        self.absolute.as_str()
    }

    /// The relative path.
    pub fn relative(&self) -> (r: &str)
        ensures
            r@ == self.relative@,
    {
        self.relative.as_str()
    }

    /// The chunks of the absolute path under the column budget.
    pub fn absolute_chunks(&self, max_width: usize) -> (r: Vec<Chunk>)
        ensures
            r@.map_values(|c: Chunk| c@) == chunks_of(
                self.absolute@,
                pos_ints(self.absolute_positions@),
                max_width as int,
            ),
            seq_concat(graphemes_of(self.absolute@)) == self.absolute@,
    {
        chunks_from(self.absolute.as_str(), &self.absolute_positions, max_width)
    }

    /// The chunks of the relative path under the column budget.
    pub fn relative_chunks(&self, max_width: usize) -> (r: Vec<Chunk>)
        ensures
            r@.map_values(|c: Chunk| c@) == chunks_of(
                self.relative@,
                pos_ints(self.relative_positions@),
                max_width as int,
            ),
            seq_concat(graphemes_of(self.relative@)) == self.relative@,
    {
        chunks_from(self.relative.as_str(), &self.relative_positions, max_width)
    }

    /// The absolute path truncated to the column budget: the concatenated
    /// chunk texts.
    pub fn truncated_absolute(&self, max_width: usize) -> (r: String)
        ensures
            r@ == chunk_concat(
                chunks_of(self.absolute@, pos_ints(self.absolute_positions@), max_width as int),
            ),
            seq_concat(graphemes_of(self.absolute@)) == self.absolute@,
    {
        let chunks = self.absolute_chunks(max_width);
        join_chunks(&chunks)
    }

    /// The relative path truncated to the column budget: the concatenated
    /// chunk texts.
    pub fn truncated_relative(&self, max_width: usize) -> (r: String)
        ensures
            r@ == chunk_concat(
                chunks_of(self.relative@, pos_ints(self.relative_positions@), max_width as int),
            ),
            seq_concat(graphemes_of(self.relative@)) == self.relative@,
    {
        let chunks = self.relative_chunks(max_width);
        join_chunks(&chunks)
    }

    /// The total distance between successive match positions of the
    /// relative path: for strictly increasing positions this is the last
    /// position minus the first, and 0 for fewer than two positions.
    pub fn distance(&self) -> (r: usize)
        requires
            self.wf(),
        ensures
            r == self.dist(),
    {
        let n = self.relative_positions.len();
        if n <= 1 {
            proof {
                assert(pos_ints(self.relative_positions@).len() == n);
            }
            return 0;
        }
        proof {
            lemma_gaps_telescope(pos_ints(self.relative_positions@));
            assert(pos_ints(self.relative_positions@)[0] == self.relative_positions@[0] as int);
            assert(pos_ints(self.relative_positions@)[n - 1] == self.relative_positions@[n
                - 1] as int);
        }
        self.relative_positions[n - 1] - self.relative_positions[0]
    }
}

proof fn lemma_pos_ints_increasing(ps: Seq<usize>)
    ensures
        strictly_increasing(pos_ints(ps)) == (forall|i: int, j: int|
            0 <= i < j < ps.len() ==> #[trigger] ps[i] < #[trigger] ps[j]),
{
    assert forall|i: int, j: int|
        0 <= i < j < ps.len() && strictly_increasing(pos_ints(ps)) implies #[trigger] ps[i]
        < #[trigger] ps[j] by {
        assert(pos_ints(ps)[i] < pos_ints(ps)[j]);
    }
    if (forall|i: int, j: int| 0 <= i < j < ps.len() ==> #[trigger] ps[i] < #[trigger] ps[j]) {
        assert forall|i: int, j: int| 0 <= i < j < pos_ints(ps).len() implies pos_ints(ps)[i]
            < pos_ints(ps)[j] by {
            assert(ps[i] < ps[j]);
        }
    }
}

fn join_chunks(chunks: &Vec<Chunk>) -> (r: String)
    ensures
        r@ == chunk_concat(chunks@.map_values(|c: Chunk| c@)),
{
    let ghost cs = chunks@.map_values(|c: Chunk| c@);
    let mut out = String::new();
    let mut i: usize = 0;
    while i < chunks.len()
        invariant
            i <= chunks@.len(),
            cs == chunks@.map_values(|c: Chunk| c@),
            out@ == chunk_concat(cs.take(i as int)),
        decreases chunks@.len() - i,
    {
        proof {
            assert(cs.take(i + 1).drop_last() =~= cs.take(i as int));
            assert(cs.take(i + 1).last() == cs[i as int]);
            assert(cs[i as int].0 == chunks@[i as int].value@);
        }
        out.append(chunks[i].value.as_str());
        i = i + 1;
    }
    proof {
        assert(cs.take(cs.len() as int) =~= cs);
    }
    out
}

/// The ranking order on matched paths: by distance, then by depth, then by
/// the relative path, lexicographically.
pub open spec fn key_le(a: MatchedPath, b: MatchedPath) -> bool {
    ||| a.dist() < b.dist()
    ||| (a.dist() == b.dist() && a.depth < b.depth)
    ||| (a.dist() == b.dist() && a.depth == b.depth && lex_le(a.relative@, b.relative@))
}

/// Two paths rank equal: each orders at or before the other.
pub open spec fn key_eq(a: MatchedPath, b: MatchedPath) -> bool {
    key_le(a, b) && key_le(b, a)
}

/// The ranking order is total.
pub proof fn lemma_key_le_total(a: MatchedPath, b: MatchedPath)
    ensures
        key_le(a, b) || key_le(b, a),
{
    crate::text::lemma_lex_le_total(a.relative@, b.relative@);
}

/// The ranking order is transitive.
pub proof fn lemma_key_le_trans(a: MatchedPath, b: MatchedPath, c: MatchedPath)
    requires
        key_le(a, b),
        key_le(b, c),
    ensures
        key_le(a, c),
{
    if a.dist() == b.dist() && b.dist() == c.dist() && a.depth == b.depth && b.depth == c.depth {
        crate::text::lemma_lex_le_trans(a.relative@, b.relative@, c.relative@);
    }
}

/// Two paths ordered both ways agree on distance, depth and relative path.
pub proof fn lemma_key_le_antisym(a: MatchedPath, b: MatchedPath)
    requires
        key_le(a, b),
        key_le(b, a),
    ensures
        a.dist() == b.dist(),
        a.depth == b.depth,
        a.relative@ == b.relative@,
{
    crate::text::lemma_lex_le_antisym(a.relative@, b.relative@);
}

/// Whether `a` ranks at or before `b`.
pub fn path_le(a: &MatchedPath, b: &MatchedPath) -> (r: bool)
    requires
        a.wf(),
        b.wf(),
    ensures
        r == key_le(*a, *b),
{
    let da = a.distance();
    let db = b.distance();
    if da < db {
        true
    } else if da > db {
        false
    } else if a.depth < b.depth {
        true
    } else if a.depth > b.depth {
        false
    } else {
        crate::text::str_lex_le(a.relative.as_str(), b.relative.as_str())
    }
}

/// The mathematical content of a matched path.
pub ghost struct MatchView {
    pub abs: Seq<char>,
    pub rel: Seq<char>,
    pub depth: int,
    pub apos: Seq<int>,
    pub rpos: Seq<int>,
}

impl View for MatchedPath {
    type V = MatchView;

    open spec fn view(&self) -> MatchView {
        MatchView {
            abs: self.absolute@,
            rel: self.relative@,
            depth: self.depth as int,
            apos: pos_ints(self.absolute_positions@),
            rpos: pos_ints(self.relative_positions@),
        }
    }
}

/// The ranking order, stated on the mathematical content alone.
pub open spec fn view_key_le(a: MatchView, b: MatchView) -> bool {
    ||| gaps_sum(a.rpos) < gaps_sum(b.rpos)
    ||| (gaps_sum(a.rpos) == gaps_sum(b.rpos) && a.depth < b.depth)
    ||| (gaps_sum(a.rpos) == gaps_sum(b.rpos) && a.depth == b.depth && lex_le(a.rel, b.rel))
}

/// What `MatchedPath::new` computes, as a function of the query, the
/// starting point and the absolute path.
pub open spec fn match_view(q: Seq<char>, sp: Seq<char>, abs: Seq<char>) -> Option<MatchView> {
    let rel = relative_of(sp, abs);
    if match_offsets(q, abs) is Some && match_offsets(q, rel) is Some {
        Some(
            MatchView {
                abs: abs,
                rel: rel,
                depth: depth_of(rel),
                apos: match_offsets(q, abs)->Some_0,
                rpos: match_offsets(q, rel)->Some_0,
            },
        )
    } else {
        None
    }
}

} // verus!
