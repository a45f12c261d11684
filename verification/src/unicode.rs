//! Trusted boundary to the Unicode crates: grapheme-cluster segmentation
//! and terminal display width. Everything else in the crate reasons about
//! strings through the two named results below.

use crate::text::seq_concat;
use unicode_segmentation::UnicodeSegmentation;
use unicode_width::UnicodeWidthStr;
use vstd::prelude::*;

verus! {

use vstd::utf8::encode_utf8;

/// The grapheme clusters of a string, in order. Segmentation is a function
/// of the characters alone (UAX #29 extended grapheme clusters).
pub uninterp spec fn graphemes_of(s: Seq<char>) -> Seq<Seq<char>>;

/// The byte offset at which grapheme cluster `i` of `s` starts: the UTF-8
/// length of everything before it.
pub open spec fn grapheme_offset(s: Seq<char>, i: int) -> int {
    encode_utf8(seq_concat(graphemes_of(s).take(i))).len() as int
}

/// What `split_graphemes` returns: the entries carry the clusters
/// `graphemes_of(s)` in order with their starting byte offsets, the
/// clusters are nonempty, and their concatenation is `s` itself.
pub open spec fn segments_match(r: Seq<(usize, String)>, s: Seq<char>) -> bool {
    &&& r.len() == graphemes_of(s).len()
    &&& forall|i: int|
        0 <= i < r.len() ==> {
            &&& (#[trigger] r[i]).1@ == graphemes_of(s)[i]
            &&& r[i].0 == grapheme_offset(s, i)
            &&& r[i].1@.len() > 0
        }
    &&& seq_concat(r.map_values(|p: (usize, String)| p.1@)) == s
}

/// Relies on unicode_segmentation's grapheme_indices: it yields the
/// extended grapheme clusters of the string in order, each with the byte
/// offset at which it starts; the clusters are nonempty substrings that
/// concatenate back to the string.
#[verifier::external_body]
pub fn split_graphemes(s: &str) -> (r: Vec<(usize, String)>)
    ensures
        r@.len() == graphemes_of(s@).len(),
        segments_match(r@, s@),
{
    s.grapheme_indices(true).map(|(i, g)| (i, g.to_string())).collect()
}

/// Unpacks `segments_match` into facts about `graphemes_of` itself.
pub proof fn lemma_segments_facts(r: Seq<(usize, String)>, s: Seq<char>)
    requires
        segments_match(r, s),
    ensures
        seq_concat(graphemes_of(s)) == s,
        forall|i: int| 0 <= i < graphemes_of(s).len() ==> (#[trigger] graphemes_of(s)[i]).len()
            > 0,
{
    assert(r.map_values(|p: (usize, String)| p.1@) =~= graphemes_of(s));
}

/// The display width in terminal columns that unicode_width assigns to a
/// string under the East-Asian-wide (CJK) convention. A function of the
/// characters alone.
pub uninterp spec fn display_width(s: Seq<char>) -> nat;

/// Relies on unicode_width's width_cjk for strings: the displayed width in
/// columns, with ambiguous-width characters counted as 2 columns.
#[verifier::external_body]
pub fn grapheme_width(s: &str) -> (r: usize)
    ensures
        r == display_width(s@),
{
    UnicodeWidthStr::width_cjk(s)
}

proof fn lemma_encode_utf8_concat(a: Seq<char>, b: Seq<char>)
    ensures
        encode_utf8(a + b) == encode_utf8(a) + encode_utf8(b),
    decreases a.len(),
{
    if a.len() == 0 {
        assert(a + b =~= b);
        assert(encode_utf8(a) + encode_utf8(b) =~= encode_utf8(b));
    } else {
        lemma_encode_utf8_concat(a.drop_first(), b);
        assert((a + b).drop_first() =~= a.drop_first() + b);
        assert((a + b)[0] == a[0]);
        assert(encode_utf8(a + b) == vstd::utf8::encode_scalar((a + b)[0] as u32) + encode_utf8(
            (a + b).drop_first(),
        ));
        assert(encode_utf8(a) + encode_utf8(b) =~= vstd::utf8::encode_scalar(a[0] as u32) + (
        encode_utf8(a.drop_first()) + encode_utf8(b)));
    }
}

proof fn lemma_encode_utf8_len_pos(a: Seq<char>)
    requires
        a.len() > 0,
    ensures
        encode_utf8(a).len() > 0,
{
    assert(encode_utf8(a) == vstd::utf8::encode_scalar(a[0] as u32) + encode_utf8(a.drop_first()));
    vstd::utf8::char_is_scalar(a[0]);
    assert(vstd::utf8::encode_scalar(a[0] as u32).len() > 0);
}

/// Successive grapheme clusters start at strictly increasing byte offsets,
/// and the first one starts at offset zero.
pub proof fn lemma_grapheme_offsets_increase(s: Seq<char>)
    requires
        forall|i: int| 0 <= i < graphemes_of(s).len() ==> (#[trigger] graphemes_of(s)[i]).len()
            > 0,
    ensures
        graphemes_of(s).len() > 0 ==> grapheme_offset(s, 0) == 0,
        forall|i: int, j: int|
            0 <= i < j <= graphemes_of(s).len() ==> grapheme_offset(s, i) < grapheme_offset(s, j)
                || (i == j),
        forall|i: int|
            0 <= i < graphemes_of(s).len() ==> #[trigger] grapheme_offset(s, i) < grapheme_offset(
                s,
                i + 1,
            ),
{
    let gs = graphemes_of(s);
    assert(gs.take(0).len() == 0);
    assert(encode_utf8(seq_concat(gs.take(0))).len() == 0);
    assert forall|i: int| 0 <= i < gs.len() implies #[trigger] grapheme_offset(s, i)
        < grapheme_offset(s, i + 1) by {
        crate::text::lemma_seq_concat_take_succ(gs, i);
        lemma_encode_utf8_concat(seq_concat(gs.take(i)), gs[i]);
        lemma_encode_utf8_len_pos(gs[i]);
    }
    assert forall|i: int, j: int|
        0 <= i < j <= gs.len() implies grapheme_offset(s, i) < grapheme_offset(s, j) || (i
        == j) by {
        lemma_offset_mono(s, i, j);
    }
}

proof fn lemma_offset_mono(s: Seq<char>, i: int, j: int)
    requires
        forall|k: int| 0 <= k < graphemes_of(s).len() ==> (#[trigger] graphemes_of(s)[k]).len()
            > 0,
        0 <= i < j <= graphemes_of(s).len(),
    ensures
        grapheme_offset(s, i) < grapheme_offset(s, j),
    decreases j - i,
{
    let gs = graphemes_of(s);
    crate::text::lemma_seq_concat_take_succ(gs, j - 1);
    lemma_encode_utf8_concat(seq_concat(gs.take(j - 1)), gs[j - 1]);
    lemma_encode_utf8_len_pos(gs[j - 1]);
    if i < j - 1 {
        lemma_offset_mono(s, i, j - 1);
    }
}

/// The empty string has no grapheme clusters, and a nonempty string has at
/// least one; there are never more clusters than characters.
pub proof fn lemma_graphemes_count(s: Seq<char>)
    requires
        seq_concat(graphemes_of(s)) == s,
        forall|i: int| 0 <= i < graphemes_of(s).len() ==> (#[trigger] graphemes_of(s)[i]).len()
            > 0,
    ensures
        graphemes_of(s).len() <= s.len(),
        (graphemes_of(s).len() == 0) == (s.len() == 0),
{
    crate::text::lemma_seq_concat_len_ge_count(graphemes_of(s));
    if graphemes_of(s).len() > 0 {
        assert(s.len() >= graphemes_of(s).len());
    }
}

} // verus!
