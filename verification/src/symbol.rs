//! The three glyphs of the codec alphabet and the biased base-3 value of a
//! glyph sequence.
//!
//! A sequence of glyphs, read most-significant digit first with digit values
//! 1, 2 and 3, denotes a unique natural number; the empty sequence denotes
//! zero. The lemmas here establish the range of values a sequence of a given
//! length can denote and that no two sequences denote the same value.

use vstd::prelude::*;

verus! {

/// True of the three glyphs the codec emits.
pub open spec fn is_symbol(c: char) -> bool {
    c == '\u{2596}' || c == '\u{2598}' || c == '\u{258C}'
}

/// Digit value of a glyph under the biased base-3 convention:
/// ▖ = 1, ▘ = 2, ▌ = 3. Any other character maps to 0.
pub open spec fn char_digit(c: char) -> int {
    if c == '\u{2596}' {
        1
    } else if c == '\u{2598}' {
        2
    } else if c == '\u{258C}' {
        3
    } else {
        0
    }
}

/// The glyph of a biased base-3 digit value; values outside 1..=3 map to the
/// null character, which is not a glyph.
pub open spec fn digit_char(d: int) -> char {
    if d == 1 {
        '\u{2596}'
    } else if d == 2 {
        '\u{2598}'
    } else if d == 3 {
        '\u{258C}'
    } else {
        '\u{0}'
    }
}

/// Every character of the sequence is one of the three glyphs.
pub open spec fn valid_seq(s: Seq<char>) -> bool {
    forall|i: int| 0 <= i < s.len() ==> is_symbol(s[i])
}

/// The value of a glyph sequence read most-significant digit first.
pub open spec fn seq_value(s: Seq<char>) -> int
    decreases s.len(),
{
    if s.len() == 0 {
        0
    } else {
        seq_value(s.drop_last()) * 3 + char_digit(s.last())
    }
}

/// Powers of three.
pub open spec fn pow3(n: nat) -> int
    decreases n,
{
    if n == 0 {
        1
    } else {
        3 * pow3((n - 1) as nat)
    }
}

/// The biased base-3 digit sequence of a non-negative number, most
/// significant digit first: empty for zero, and for positive n the digits
/// produced by repeatedly taking `(n - 1) % 3 + 1` and continuing with
/// `(n - 1) / 3`.
pub open spec fn biased_digits(n: int) -> Seq<char>
    decreases n,
{
    if n <= 0 {
        Seq::empty()
    } else {
        biased_digits((n - 1) / 3).push(digit_char((n - 1) % 3 + 1))
    }
}

/// The digit sequence of n is made of glyphs and denotes n.
pub proof fn lemma_biased_digits_value(n: int)
    requires
        n >= 0,
    ensures
        valid_seq(biased_digits(n)),
        seq_value(biased_digits(n)) == n,
        biased_digits(n).len() == 0 <==> n == 0,
    decreases n,
{
    if n > 0 {
        let m = (n - 1) / 3;
        let d = (n - 1) % 3 + 1;
        lemma_biased_digits_value(m);
        let s = biased_digits(n);
        assert(s.drop_last() =~= biased_digits(m));
        assert(s.last() == digit_char(d));
        assert(char_digit(digit_char(d)) == d);
        assert(seq_value(s) == m * 3 + d);
        assert(forall|i: int| 0 <= i < s.len() ==> is_symbol(s[i])) by {
            assert(forall|i: int|
                0 <= i < s.len() - 1 ==> s[i] == biased_digits(m)[i] && is_symbol(s[i]));
        }
    }
}

pub proof fn lemma_pow3_mono(a: nat, b: nat)
    requires
        a <= b,
    ensures
        pow3(a) <= pow3(b),
    decreases b,
{
    if a < b {
        lemma_pow3_mono(a, (b - 1) as nat);
        lemma_pow3_pos((b - 1) as nat);
    }
}

/// The exact value of 3^41: the least power of three whose biased base-3
/// range, (3^41 - 1) / 2 and upward, lies entirely beyond `u64::MAX`.
pub proof fn lemma_pow3_41()
    ensures
        pow3(41) == 36472996377170786403,
{
    reveal_with_fuel(pow3, 42);
}

pub proof fn lemma_pow3_pos(n: nat)
    ensures
        pow3(n) >= 1,
    decreases n,
{
    if n > 0 {
        lemma_pow3_pos((n - 1) as nat);
    }
}

/// The value of any sequence is non-negative (digits are never negative).
pub proof fn lemma_seq_value_nonneg(s: Seq<char>)
    ensures
        seq_value(s) >= 0,
    decreases s.len(),
{
    if s.len() > 0 {
        lemma_seq_value_nonneg(s.drop_last());
    }
}

/// A sequence of L glyph digits denotes a value in
/// [(3^L - 1) / 2, 3 * (3^L - 1) / 2]: at least the all-ones sequence and
/// at most the all-threes sequence.
pub proof fn lemma_seq_value_bounds(s: Seq<char>)
    requires
        valid_seq(s),
    ensures
        2 * seq_value(s) >= pow3(s.len()) - 1,
        2 * seq_value(s) <= 3 * (pow3(s.len()) - 1),
    decreases s.len(),
{
    if s.len() > 0 {
        assert(valid_seq(s.drop_last()));
        lemma_seq_value_bounds(s.drop_last());
        assert(1 <= char_digit(s.last()) <= 3);
    }
}

/// Prepending a digit adds its value at the most significant position.
pub proof fn lemma_seq_value_prepend(c: char, s: Seq<char>)
    ensures
        seq_value(seq![c].add(s)) == char_digit(c) * pow3(s.len()) + seq_value(s),
    decreases s.len(),
{
    let t = seq![c].add(s);
    if s.len() == 0 {
        assert(t.len() == 1);
        assert(t.drop_last() =~= Seq::<char>::empty());
        assert(t.last() == c);
        assert(seq_value(t) == seq_value(Seq::<char>::empty()) * 3 + char_digit(c));
        assert(seq_value(t) == char_digit(c));
        assert(pow3(s.len()) == 1);
    } else {
        let u = s.drop_last();
        assert(t.drop_last() =~= seq![c].add(u));
        assert(t.last() == s.last());
        lemma_seq_value_prepend(c, u);
        assert(seq_value(t) == seq_value(t.drop_last()) * 3 + char_digit(t.last()));
        assert(seq_value(t.drop_last()) == char_digit(c) * pow3(u.len()) + seq_value(u));
        assert(u.len() == (s.len() - 1) as nat);
        assert(pow3(s.len()) == 3 * pow3(u.len()));
        assert(char_digit(c) * pow3(s.len()) == 3 * (char_digit(c) * pow3(u.len())))
            by (nonlinear_arith)
            requires
                pow3(s.len()) == 3 * pow3(u.len()),
        ;
        assert(seq_value(s) == seq_value(u) * 3 + char_digit(s.last()));
        assert(seq_value(t) == char_digit(c) * pow3(s.len()) + seq_value(s));
    }
}

/// No two glyph sequences denote the same value: the biased base-3
/// representation of a number is unique.
pub proof fn lemma_seq_value_injective(s1: Seq<char>, s2: Seq<char>)
    requires
        valid_seq(s1),
        valid_seq(s2),
        seq_value(s1) == seq_value(s2),
    ensures
        s1 == s2,
    decreases s1.len(),
{
    if s1.len() == 0 {
        if s2.len() > 0 {
            lemma_seq_value_bounds(s2);
            lemma_pow3_pos(s2.len());
            assert(false);
        }
        assert(s1 =~= s2);
    } else if s2.len() == 0 {
        lemma_seq_value_bounds(s1);
        lemma_pow3_pos(s1.len());
        assert(false);
    } else {
        let d1 = char_digit(s1.last());
        let d2 = char_digit(s2.last());
        assert(1 <= d1 <= 3 && 1 <= d2 <= 3);
        // 3 divides d1 - d2 and |d1 - d2| <= 2, so the last digits agree.
        assert(d1 == d2);
        assert(s1.last() == s2.last());
        assert(valid_seq(s1.drop_last()));
        assert(valid_seq(s2.drop_last()));
        lemma_seq_value_injective(s1.drop_last(), s2.drop_last());
        assert(s1 =~= s1.drop_last().push(s1.last()));
        assert(s2 =~= s2.drop_last().push(s2.last()));
        assert(s1 =~= s2);
    }
}

} // verus!
