//! Verified character-level string utilities: equality, lexicographic
//! ordering, character search and prefix tests over `Seq<char>` views.

use vstd::prelude::*;

verus! {

/// A character is an ASCII decimal digit.
pub open spec fn is_ascii_digit(c: char) -> bool {
    48 <= c as u32 <= 57
}

/// The sequence starts with an ASCII decimal digit.
pub open spec fn leading_digit(s: Seq<char>) -> bool {
    s.len() > 0 && is_ascii_digit(s[0])
}

/// `p` is a prefix of `s`.
pub open spec fn is_prefix_of(p: Seq<char>, s: Seq<char>) -> bool {
    p.len() <= s.len() && s.subrange(0, p.len() as int) == p
}

/// Lexicographic (code-point) order on character sequences: `a` precedes
/// `b` when `a` is a prefix of `b` or holds the smaller character at the
/// first differing position. This matches the order `str` comparison gives,
/// since UTF-8 byte order agrees with code-point order.
pub open spec fn lex_le(a: Seq<char>, b: Seq<char>) -> bool
    decreases a.len(),
{
    if a.len() == 0 {
        true
    } else if b.len() == 0 {
        false
    } else if (a[0] as u32) < (b[0] as u32) {
        true
    } else if (b[0] as u32) < (a[0] as u32) {
        false
    } else {
        lex_le(a.drop_first(), b.drop_first())
    }
}

/// `lex_le` is total: of any two sequences, one precedes the other.
pub proof fn lemma_lex_le_total(a: Seq<char>, b: Seq<char>)
    ensures
        lex_le(a, b) || lex_le(b, a),
    decreases a.len(),
{
    if a.len() > 0 && b.len() > 0 && !((a[0] as u32) < (b[0] as u32)) && !((b[0] as u32) < (
    a[0] as u32)) {
        lemma_lex_le_total(a.drop_first(), b.drop_first());
    }
}

/// `lex_le` is transitive.
pub proof fn lemma_lex_le_trans(a: Seq<char>, b: Seq<char>, c: Seq<char>)
    requires
        lex_le(a, b),
        lex_le(b, c),
    ensures
        lex_le(a, c),
    decreases a.len(),
{
    if a.len() > 0 && b.len() > 0 && c.len() > 0 && (a[0] as u32) == (b[0] as u32) && (
    b[0] as u32) == (c[0] as u32) {
        lemma_lex_le_trans(a.drop_first(), b.drop_first(), c.drop_first());
    }
}

/// Character-sequence equality of two string slices.
pub fn str_eq(a: &str, b: &str) -> (r: bool)
    ensures
        r == (a@ == b@),
{
    let a_len = a.unicode_len();
    let b_len = b.unicode_len();
    if a_len != b_len {
        return false;
    }
    let mut i: usize = 0;
    while i < a_len
        invariant
            i <= a_len,
            a_len == a@.len(),
            a_len == b@.len(),
            forall|j: int| 0 <= j < i ==> a@[j] == b@[j],
        decreases a_len - i,
    {
        if a.get_char(i) != b.get_char(i) {
            return false;
        }
        i = i + 1;
    }
    proof {
        assert(a@ =~= b@);
    }
    true
}

/// Lexicographic comparison of two string slices.
pub fn str_le(a: &str, b: &str) -> (r: bool)
    ensures
        r == lex_le(a@, b@),
{
    let a_len = a.unicode_len();
    let b_len = b.unicode_len();
    proof {
        assert(a@.skip(0) =~= a@);
        assert(b@.skip(0) =~= b@);
    }
    let mut i: usize = 0;
    while i < a_len && i < b_len
        invariant
            i <= a_len,
            i <= b_len,
            a_len == a@.len(),
            b_len == b@.len(),
            lex_le(a@, b@) == lex_le(a@.skip(i as int), b@.skip(i as int)),
        decreases a_len - i,
    {
        let ca = a.get_char(i);
        let cb = b.get_char(i);
        if (ca as u32) < (cb as u32) {
            return true;
        }
        if (cb as u32) < (ca as u32) {
            return false;
        }
        proof {
            assert(a@.skip(i as int).drop_first() =~= a@.skip(i as int + 1));
            assert(b@.skip(i as int).drop_first() =~= b@.skip(i as int + 1));
        }
        i = i + 1;
    }
    proof {
        if i == a_len {
            assert(a@.skip(i as int).len() == 0);
        } else {
            assert(b@.skip(i as int).len() == 0);
            assert(a@.skip(i as int).len() > 0);
        }
    }
    i == a_len
}

/// Whether the string slice holds the given character anywhere.
pub fn str_contains_char(s: &str, c: char) -> (r: bool)
    ensures
        r == s@.contains(c),
{
    let len = s.unicode_len();
    let mut i: usize = 0;
    while i < len
        invariant
            i <= len,
            len == s@.len(),
            forall|j: int| 0 <= j < i ==> s@[j] != c,
        decreases len - i,
    {
        if s.get_char(i) == c {
            assert(s@[i as int] == c);
            return true;
        }
        i = i + 1;
    }
    false
}

/// Whether the string slice starts with an ASCII decimal digit.
pub fn str_leading_digit(s: &str) -> (r: bool)
    ensures
        r == leading_digit(s@),
{
    if s.unicode_len() == 0 {
        return false;
    }
    let c = s.get_char(0);
    48 <= (c as u32) && (c as u32) <= 57
}

/// Whether `p` is a prefix of `s`.
pub fn str_has_prefix(s: &str, p: &str) -> (r: bool)
    ensures
        r == is_prefix_of(p@, s@),
{
    let s_len = s.unicode_len();
    let p_len = p.unicode_len();
    if p_len > s_len {
        return false;
    }
    let mut i: usize = 0;
    while i < p_len
        invariant
            i <= p_len,
            p_len <= s_len,
            s_len == s@.len(),
            p_len == p@.len(),
            forall|j: int| 0 <= j < i ==> s@[j] == p@[j],
        decreases p_len - i,
    {
        if s.get_char(i) != p.get_char(i) {
            assert(s@.subrange(0, p@.len() as int)[i as int] != p@[i as int]);
            return false;
        }
        i = i + 1;
    }
    proof {
        assert(s@.subrange(0, p@.len() as int) =~= p@);
    }
    true
}

} // verus!
