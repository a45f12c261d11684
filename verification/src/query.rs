//! The search-query buffer: a cursor-aware sequence of grapheme clusters
//! together with the cached display column of the cursor.

use crate::text::seq_concat;
use crate::unicode::{display_width, graphemes_of, grapheme_width, split_graphemes};
use vstd::prelude::*;

verus! {

/// The number of terminal columns a single grapheme cluster occupies on
/// screen: 1 for single-width clusters, 2 for everything else (East-Asian
/// wide characters and emoji).
pub open spec fn cell_width(g: Seq<char>) -> int {
    if display_width(g) == 1 {
        1
    } else {
        2
    }
}

/// The total cell width of the first `n` graphemes of `vs`.
pub open spec fn width_sum(vs: Seq<String>, n: int) -> int
    decreases n,
{
    if n <= 0 {
        0
    } else {
        width_sum(vs, n - 1) + cell_width(vs[n - 1]@)
    }
}

pub proof fn lemma_width_sum_bounds(vs: Seq<String>, n: int)
    ensures
        0 <= width_sum(vs, n),
        n >= 0 ==> width_sum(vs, n) <= 2 * n,
    decreases n,
{
    if n > 0 {
        lemma_width_sum_bounds(vs, n - 1);
    }
}

/// The width sum over a prefix only reads that prefix.
proof fn lemma_width_sum_prefix_eq(vs: Seq<String>, ws: Seq<String>, n: int)
    requires
        0 <= n <= vs.len(),
        n <= ws.len(),
        forall|i: int| 0 <= i < n ==> vs[i] == ws[i],
    ensures
        width_sum(vs, n) == width_sum(ws, n),
    decreases n,
{
    if n > 0 {
        lemma_width_sum_prefix_eq(vs, ws, n - 1);
    }
}

/// The query buffer: grapheme clusters, the cursor position as an index
/// into them, and the display column of the cursor.
pub struct Query {
    pub value: Vec<String>,
    pub idx: usize,
    pub terminal_pos: usize,
}

impl Query {
    /// The buffer is well formed: the cursor stays within the contents, the
    /// contents stay small enough that widths fit a `usize`, and the cached
    /// column is the width of everything left of the cursor.
    pub open spec fn wf(self) -> bool {
        &&& self.idx <= self.value@.len()
        &&& self.value@.len() <= usize::MAX / 2
        &&& self.terminal_pos == width_sum(self.value@, self.idx as int)
    }

    /// Builds a buffer holding the grapheme clusters of `value` with the
    /// cursor at the end.
    pub fn new(value: &str) -> (r: Self)
        requires
            value@.len() <= usize::MAX / 2,
        ensures
            r.wf(),
            r.value@.map_values(|s: String| s@) == graphemes_of(value@),
            r.idx == r.value@.len(),
    {
        let segs = split_graphemes(value);
        proof {
            crate::unicode::lemma_segments_facts(segs@, value@);
            crate::unicode::lemma_graphemes_count(value@);
        }
        let mut items: Vec<String> = Vec::new();
        let mut pos: usize = 0;
        let mut i: usize = 0;
        while i < segs.len()
            invariant
                i <= segs@.len(),
                segs@.len() == graphemes_of(value@).len() <= usize::MAX / 2,
                crate::unicode::segments_match(segs@, value@),
                items@.len() == i,
                forall|j: int| 0 <= j < i ==> (#[trigger] items@[j])@ == graphemes_of(value@)[j],
                pos == width_sum(items@, i as int),
                pos <= 2 * i,
            decreases segs@.len() - i,
        {
            let g = segs[i].1.clone();
            proof {
                assert(segs@[i as int].1@ == graphemes_of(value@)[i as int]);
            }
            let w = get_cjk_width(g.as_str());
            let ghost old_items = items@;
            items.push(g);
            proof {
                lemma_width_sum_prefix_eq(old_items, items@, i as int);
            }
            pos = pos + w;
            i = i + 1;
        }
        proof {
            assert(items@.map_values(|s: String| s@) =~= graphemes_of(value@));
        }
        let n = items.len();
        Query { value: items, idx: n, terminal_pos: pos }
    }

    /// Inserts one grapheme cluster at the cursor and advances the cursor
    /// past it, returning the cluster's cell width.
    pub fn push(&mut self, s: String) -> (d: usize)
        requires
            old(self).wf(),
            old(self).value@.len() < usize::MAX / 2,
        ensures
            final(self).wf(),
            final(self).value@ == old(self).value@.insert(old(self).idx as int, s),
            final(self).idx == old(self).idx + 1,
            d == cell_width(s@),
            final(self).terminal_pos == old(self).terminal_pos + d,
    {
        proof {
            lemma_width_sum_bounds(self.value@, self.idx as int);
        }
        let d = get_cjk_width(s.as_str());
        let ghost old_value = self.value@;
        let ghost k = self.idx as int;
        self.value.insert(self.idx, s);
        self.idx = self.idx + 1;
        self.terminal_pos = self.terminal_pos + d;
        proof {
            lemma_width_sum_prefix_eq(old_value, self.value@, k);
            assert(width_sum(self.value@, k + 1) == width_sum(self.value@, k) + cell_width(
                self.value@[k]@,
            ));
        }
        d
    }

    /// Removes the grapheme cluster just before the cursor, if any, moving
    /// the cursor back over it; returns the removed cluster's cell width,
    /// or 0 when the cursor is already at the start.
    pub fn pop(&mut self) -> (d: usize)
        requires
            old(self).wf(),
        ensures
            final(self).wf(),
            old(self).idx == 0 ==> (*final(self) == *old(self) && d == 0),
            old(self).idx > 0 ==> {
                &&& final(self).value@ == old(self).value@.remove(old(self).idx - 1)
                &&& final(self).idx == old(self).idx - 1
                &&& d == cell_width(old(self).value@[old(self).idx - 1]@)
                &&& final(self).terminal_pos == old(self).terminal_pos - d
            },
    {
        if self.idx > 0 {
            let ghost old_value = self.value@;
            let ghost k = self.idx - 1;
            let popped = self.value.remove(self.idx - 1);
            self.idx = self.idx - 1;
            let d = get_cjk_width(popped.as_str());
            proof {
                lemma_width_sum_bounds(old_value, k);
                assert(width_sum(old_value, k + 1) == width_sum(old_value, k) + cell_width(
                    old_value[k]@,
                ));
                lemma_width_sum_prefix_eq(old_value, self.value@, k);
            }
            self.terminal_pos = self.terminal_pos - d;
            return d;
        }
        0
    }

    /// Moves the cursor one grapheme cluster to the left, returning that
    /// cluster's cell width; a no-op returning 0 at the start.
    pub fn move_left(&mut self) -> (d: usize)
        requires
            old(self).wf(),
        ensures
            final(self).wf(),
            final(self).value@ == old(self).value@,
            old(self).idx == 0 ==> (*final(self) == *old(self) && d == 0),
            old(self).idx > 0 ==> {
                &&& final(self).idx == old(self).idx - 1
                &&& d == cell_width(old(self).value@[old(self).idx - 1]@)
                &&& final(self).terminal_pos == old(self).terminal_pos - d
            },
    {
        if self.idx > 0 {
            let d = get_cjk_width(self.value[self.idx - 1].as_str());
            proof {
                lemma_width_sum_bounds(self.value@, self.idx - 1);
                assert(width_sum(self.value@, self.idx as int) == width_sum(
                    self.value@,
                    self.idx - 1,
                ) + cell_width(self.value@[self.idx - 1]@));
            }
            self.idx = self.idx - 1;
            self.terminal_pos = self.terminal_pos - d;
            return d;
        }
        0
    }

    /// Moves the cursor one grapheme cluster to the right, returning that
    /// cluster's cell width; a no-op returning 0 at the end.
    pub fn move_right(&mut self) -> (d: usize)
        requires
            old(self).wf(),
        ensures
            final(self).wf(),
            final(self).value@ == old(self).value@,
            old(self).idx == old(self).value@.len() ==> (*final(self) == *old(self) && d == 0),
            old(self).idx < old(self).value@.len() ==> {
                &&& final(self).idx == old(self).idx + 1
                &&& d == cell_width(old(self).value@[old(self).idx as int]@)
                &&& final(self).terminal_pos == old(self).terminal_pos + d
            },
    {
        if self.idx < self.value.len() {
            proof {
                lemma_width_sum_bounds(self.value@, self.idx as int);
            }
            self.idx = self.idx + 1;
            let d = get_cjk_width(self.value[self.idx - 1].as_str());
            self.terminal_pos = self.terminal_pos + d;
            return d;
        }
        0
    }

    /// Renders the whole buffer as one string.
    pub fn to_string(&self) -> (r: String)
        ensures
            r@ == seq_concat(self.value@.map_values(|s: String| s@)),
    {
        let ghost texts = self.value@.map_values(|s: String| s@);
        let mut out = String::new();
        let mut i: usize = 0;
        while i < self.value.len()
            invariant
                i <= self.value@.len(),
                texts == self.value@.map_values(|s: String| s@),
                out@ == seq_concat(texts.take(i as int)),
            decreases self.value@.len() - i,
        {
            proof {
                crate::text::lemma_seq_concat_take_succ(texts, i as int);
            }
            out.append(self.value[i].as_str());
            i = i + 1;
        }
        proof {
            crate::text::lemma_seq_concat_full_take(texts);
        }
        out
    }
}

/// The cell width of one grapheme cluster: 1 for single-width clusters,
/// 2 otherwise.
pub fn get_cjk_width(s: &str) -> (r: usize)
    ensures
        r == cell_width(s@),
{
    if grapheme_width(s) == 1 {
        1
    } else {
        2
    }
}

} // verus!
