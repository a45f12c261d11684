//! Character-sequence foundations: concatenation of segment lists,
//! ASCII-case-insensitive equality, and lexicographic order on strings.

use vstd::prelude::*;

verus! {

/// Concatenation of a sequence of character sequences.
pub open spec fn seq_concat(ss: Seq<Seq<char>>) -> Seq<char>
    decreases ss.len(),
{
    if ss.len() == 0 {
        Seq::empty()
    } else {
        ss[0] + seq_concat(ss.drop_first())
    }
}

pub proof fn lemma_seq_concat_take_succ(ss: Seq<Seq<char>>, i: int)
    requires
        0 <= i < ss.len(),
    ensures
        seq_concat(ss.take(i + 1)) == seq_concat(ss.take(i)) + ss[i],
    decreases i,
{
    if i == 0 {
        assert(ss.take(1).drop_first() =~= Seq::<Seq<char>>::empty());
        assert(ss.take(1).len() == 1);
        assert(seq_concat(ss.take(1)) == ss.take(1)[0] + seq_concat(ss.take(1).drop_first()));
        assert(seq_concat(ss.take(1)) =~= ss[0]);
        assert(ss.take(0).len() == 0);
        assert(seq_concat(ss.take(0)) + ss[0] =~= ss[0]);
    } else {
        lemma_seq_concat_take_succ(ss.drop_first(), i - 1);
        assert(ss.take(i + 1).drop_first() =~= ss.drop_first().take(i));
        assert(ss.take(i).drop_first() =~= ss.drop_first().take(i - 1));
        assert(seq_concat(ss.take(i + 1)) == ss[0] + seq_concat(ss.drop_first().take(i)));
        assert(seq_concat(ss.take(i)) == ss[0] + seq_concat(ss.drop_first().take(i - 1)));
        assert(seq_concat(ss.take(i)) + ss[i] =~= ss[0] + (seq_concat(ss.drop_first().take(i - 1))
            + ss.drop_first()[i - 1]));
    }
}

pub proof fn lemma_seq_concat_full_take(ss: Seq<Seq<char>>)
    ensures
        seq_concat(ss.take(ss.len() as int)) == seq_concat(ss),
{
    assert(ss.take(ss.len() as int) =~= ss);
}

/// The concatenation is at least as long as the number of nonempty segments.
pub proof fn lemma_seq_concat_len_ge_count(ss: Seq<Seq<char>>)
    requires
        forall|i: int| 0 <= i < ss.len() ==> ss[i].len() > 0,
    ensures
        seq_concat(ss).len() >= ss.len(),
    decreases ss.len(),
{
    if ss.len() > 0 {
        lemma_seq_concat_len_ge_count(ss.drop_first());
    }
}

/// The ASCII-lowercased code point of a character: letters `A`..`Z` map to
/// their lowercase counterparts, every other character is unchanged.
pub open spec fn lower_code(c: char) -> u32 {
    if 65 <= c as u32 && c as u32 <= 90 {
        (c as u32 + 32) as u32
    } else {
        c as u32
    }
}

/// Two character sequences are equal ignoring ASCII case.
pub open spec fn eq_ignore_ascii(a: Seq<char>, b: Seq<char>) -> bool {
    a.len() == b.len() && forall|i: int| 0 <= i < a.len() ==> lower_code(a[i]) == lower_code(b[i])
}

fn lower_code_exec(u: u32) -> (r: u32)
    requires
        u <= 0x10FFFF,
    ensures
        forall|c: char| c as u32 == u ==> r == lower_code(c),
{
    if 65 <= u && u <= 90 {
        u + 32
    } else {
        u
    }
}

/// Whether two strings are equal ignoring ASCII case, character by character.
pub fn str_eq_ignore_ascii_case(a: &str, b: &str) -> (r: bool)
    ensures
        r == eq_ignore_ascii(a@, b@),
{
    let na = a.unicode_len();
    let nb = b.unicode_len();
    if na != nb {
        return false;
    }
    let mut i: usize = 0;
    while i < na
        invariant
            na == a@.len(),
            na == b@.len(),
            i <= na,
            forall|j: int| 0 <= j < i ==> lower_code(a@[j]) == lower_code(b@[j]),
        decreases na - i,
    {
        let ca = a.get_char(i);
        let cb = b.get_char(i);
        if lower_code_exec(ca as u32) != lower_code_exec(cb as u32) {
            return false;
        }
        i = i + 1;
    }
    true
}

/// Relies on std's String::push: it appends the given character to the
/// end of the string.
pub assume_specification[ String::push ](s: &mut String, ch: char)
    ensures
        final(s)@ == old(s)@.push(ch),
;

/// Lexicographic "less than or equal" on character sequences, ordering
/// characters by code point.
pub open spec fn lex_le(a: Seq<char>, b: Seq<char>) -> bool
    decreases a.len(),
{
    if a.len() == 0 {
        true
    } else if b.len() == 0 {
        false
    } else if (a[0] as u32) < (b[0] as u32) {
        true
    } else if a[0] == b[0] {
        lex_le(a.drop_first(), b.drop_first())
    } else {
        false
    }
}

proof fn lemma_lex_le_skip(a: Seq<char>, b: Seq<char>, i: int)
    requires
        0 <= i <= a.len(),
        i <= b.len(),
        forall|j: int| 0 <= j < i ==> a[j] == b[j],
    ensures
        lex_le(a, b) == lex_le(a.skip(i), b.skip(i)),
    decreases i,
{
    if i > 0 {
        assert(a.len() > 0 && b.len() > 0 && a[0] == b[0]);
        lemma_lex_le_skip(a.drop_first(), b.drop_first(), i - 1);
        assert(a.drop_first().skip(i - 1) =~= a.skip(i));
        assert(b.drop_first().skip(i - 1) =~= b.skip(i));
    } else {
        assert(a.skip(0) =~= a);
        assert(b.skip(0) =~= b);
    }
}

/// The lexicographic order is total.
pub proof fn lemma_lex_le_total(a: Seq<char>, b: Seq<char>)
    ensures
        lex_le(a, b) || lex_le(b, a),
    decreases a.len(),
{
    if a.len() > 0 && b.len() > 0 {
        if a[0] == b[0] {
            lemma_lex_le_total(a.drop_first(), b.drop_first());
        } else {
            vstd::utf8::char_u32_cast(a[0], a[0] as u32);
            vstd::utf8::char_u32_cast(b[0], b[0] as u32);
            assert(a[0] as u32 != b[0] as u32);
            assert((a[0] as u32) < (b[0] as u32) || (b[0] as u32) < (a[0] as u32));
        }
    }
}

/// The lexicographic order is antisymmetric.
pub proof fn lemma_lex_le_antisym(a: Seq<char>, b: Seq<char>)
    requires
        lex_le(a, b),
        lex_le(b, a),
    ensures
        a == b,
    decreases a.len(),
{
    if a.len() == 0 {
        assert(b.len() == 0);
        assert(a =~= b);
    } else {
        assert(b.len() > 0);
        assert(a[0] == b[0]);
        lemma_lex_le_antisym(a.drop_first(), b.drop_first());
        assert(a.drop_first() == b.drop_first());
        assert(a.drop_first().len() == b.drop_first().len());
        assert(a.len() == b.len());
        assert forall|i: int| 0 <= i < a.len() implies a[i] == b[i] by {
            if i >= 1 {
                assert(a.drop_first()[i - 1] == b.drop_first()[i - 1]);
            }
        }
        assert(a =~= b);
    }
}

/// The lexicographic order is transitive.
pub proof fn lemma_lex_le_trans(a: Seq<char>, b: Seq<char>, c: Seq<char>)
    requires
        lex_le(a, b),
        lex_le(b, c),
    ensures
        lex_le(a, c),
    decreases a.len(),
{
    if a.len() > 0 && b.len() > 0 && c.len() > 0 && a[0] == c[0] {
        assert(a[0] as u32 <= b[0] as u32 <= c[0] as u32);
        assert(a[0] == b[0] && b[0] == c[0]);
        lemma_lex_le_trans(a.drop_first(), b.drop_first(), c.drop_first());
    }
}

/// Lexicographic comparison of two strings by code point.
pub fn str_lex_le(a: &str, b: &str) -> (r: bool)
    ensures
        r == lex_le(a@, b@),
{
    let na = a.unicode_len();
    let nb = b.unicode_len();
    let mut i: usize = 0;
    loop
        invariant
            na == a@.len(),
            nb == b@.len(),
            i <= na,
            i <= nb,
            forall|j: int| 0 <= j < i ==> a@[j] == b@[j],
        decreases na - i,
    {
        if i >= na {
            proof {
                lemma_lex_le_skip(a@, b@, i as int);
            }
            return true;
        }
        if i >= nb {
            proof {
                lemma_lex_le_skip(a@, b@, i as int);
            }
            return false;
        }
        let ca = a.get_char(i);
        let cb = b.get_char(i);
        if (ca as u32) < (cb as u32) {
            proof {
                lemma_lex_le_skip(a@, b@, i as int);
            }
            return true;
        }
        if (ca as u32) > (cb as u32) {
            proof {
                lemma_lex_le_skip(a@, b@, i as int);
                assert(!lex_le(a@.skip(i as int), b@.skip(i as int)));
            }
            return false;
        }
        proof {
            assert(ca as u32 == cb as u32);
            assert(ca == cb);
        }
        i = i + 1;
    }
}

} // verus!
