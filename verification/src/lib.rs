//! A reversible codec between unsigned integers / printable ASCII text and a
//! ternary alphabet of three box-drawing glyphs (▖, ▘, ▌).
//!
//! Numbers are encoded in biased base-3: each digit has value 1, 2 or 3
//! (mapped to the glyphs in order), the empty sequence represents zero, and
//! every value has a unique representation, so encoding and decoding round
//! trip exactly.

use vstd::prelude::*;

pub mod alphabet;
pub mod error;
pub mod symbol;
pub mod text;

pub use error::DollcodeError;

use symbol::{
    biased_digits, char_digit, digit_char, is_symbol, lemma_biased_digits_value, lemma_pow3_41,
    lemma_pow3_pos, lemma_seq_value_injective, lemma_seq_value_nonneg, lemma_seq_value_prepend,
    pow3, seq_value, valid_seq,
};

verus! {

/// Maximum length of a dollcode sequence: 41 biased base-3 digits suffice to
/// represent every `u64` value, since (3^42 - 1) / 2 exceeds `u64::MAX`.
pub const MAX_DOLLCODE_SIZE: usize = 41;

/// The three glyphs in digit-value order: 1 -> ▖, 2 -> ▘, 3 -> ▌.
pub const DOLLCODE_CHAR_MAP: [char; 3] = ['\u{2596}', '\u{2598}', '\u{258C}'];

/// A fixed-capacity dollcode sequence, produced by the numeric encoder.
#[derive(Debug, Clone)]
pub struct Dollcode {
    chars: Vec<char>,
}

impl View for Dollcode {
    type V = Seq<char>;

    closed spec fn view(&self) -> Seq<char> {
        self.chars@
    }
}

impl Dollcode {
    /// The sequence holds at most `MAX_DOLLCODE_SIZE` characters, all of them
    /// glyphs.
    pub open spec fn wf(&self) -> bool {
        self@.len() <= MAX_DOLLCODE_SIZE && valid_seq(self@)
    }

    /// Creates an empty dollcode sequence.
    pub fn new() -> (d: Self)
        ensures
            d@ =~= Seq::<char>::empty(),
            d.wf(),
    {
        Dollcode { chars: Vec::new() }
    }

    /// Returns a slice of the characters in this sequence.
    pub fn as_chars(&self) -> (r: &[char])
        ensures
            r@ == self@,
    {
        self.chars.as_slice()
    }

    /// Returns the number of characters in this sequence.
    pub fn len(&self) -> (r: usize)
        ensures
            r == self@.len(),
    {
        self.chars.len()
    }

    /// Returns true if this sequence is empty.
    pub fn is_empty(&self) -> (r: bool)
        ensures
            r == (self@.len() == 0),
    {
        self.chars.len() == 0
    }
}

impl Default for Dollcode {
    /// The default sequence is the empty one.
    fn default() -> (d: Self)
        ensures
            d@ =~= Seq::<char>::empty(),
            d.wf(),
    {
        Dollcode::new()
    }
}

/// The exact outcome of decoding a glyph sequence most-significant digit
/// first, starting from the accumulator `acc`: each step multiplies by 3 and
/// adds the digit value, reporting the first failure encountered, with the
/// multiplication and the addition each checked against `u64::MAX`.
pub open spec fn decode_value(acc: int, s: Seq<char>) -> Result<u64, DollcodeError>
    decreases s.len(),
{
    if s.len() == 0 {
        Ok(acc as u64)
    } else if acc * 3 > u64::MAX {
        Err(DollcodeError::Overflow)
    } else if !is_symbol(s[0]) {
        Err(DollcodeError::InvalidInput)
    } else if acc * 3 + char_digit(s[0]) > u64::MAX {
        Err(DollcodeError::Overflow)
    } else {
        decode_value(acc * 3 + char_digit(s[0]), s.subrange(1, s.len() as int))
    }
}

proof fn lemma_decode_value_cases(acc: int, s: Seq<char>)
    requires
        0 <= acc <= u64::MAX,
        valid_seq(s),
    ensures
        acc * pow3(s.len()) + seq_value(s) <= u64::MAX ==> decode_value(acc, s) == Ok::<
            u64,
            DollcodeError,
        >((acc * pow3(s.len()) + seq_value(s)) as u64),
        acc * pow3(s.len()) + seq_value(s) > u64::MAX ==> decode_value(acc, s) == Err::<
            u64,
            DollcodeError,
        >(DollcodeError::Overflow),
    decreases s.len(),
{
    lemma_seq_value_nonneg(s);
    lemma_pow3_pos(s.len());
    if s.len() > 0 {
        let d = char_digit(s[0]);
        let rest = s.subrange(1, s.len() as int);
        let p = pow3(rest.len());
        let full = acc * pow3(s.len()) + seq_value(s);
        assert(s =~= seq![s[0]].add(rest));
        lemma_seq_value_prepend(s[0], rest);
        lemma_seq_value_nonneg(rest);
        lemma_pow3_pos(rest.len());
        assert(pow3(s.len()) == 3 * p);
        assert(is_symbol(s[0]) && 1 <= d <= 3);
        assert(full == (acc * 3 + d) * p + seq_value(rest)) by (nonlinear_arith)
            requires
                full == acc * (3 * p) + (d * p + seq_value(rest)),
        ;
        if acc * 3 > u64::MAX || acc * 3 + d > u64::MAX {
            assert((acc * 3 + d) * p >= acc * 3 + d) by (nonlinear_arith)
                requires
                    acc * 3 + d >= 0,
                    p >= 1,
            ;
            assert(full > u64::MAX);
        } else {
            lemma_decode_value_cases(acc * 3 + d, rest);
        }
    }
}

proof fn lemma_decode_value_min(acc: int, s: Seq<char>)
    requires
        0 <= acc <= u64::MAX,
    ensures
        decode_value(acc, s) matches Ok(v) ==> v >= acc,
        s.len() > 0 ==> (decode_value(acc, s) matches Ok(v) ==> v > acc),
    decreases s.len(),
{
    if s.len() > 0 && is_symbol(s[0]) && acc * 3 <= u64::MAX && acc * 3 + char_digit(s[0])
        <= u64::MAX {
        lemma_decode_value_min(acc * 3 + char_digit(s[0]), s.subrange(1, s.len() as int));
    }
}

/// Round-trip law: decoding a sequence of valid glyphs returns exactly the
/// sequence's biased base-3 value whenever that value fits in a `u64`. In
/// particular, decoding what [`to_dollcode`] produced yields the original
/// number.
pub proof fn lemma_numeric_round_trip(s: Seq<char>, v: u64)
    requires
        valid_seq(s),
        seq_value(s) == v,
    ensures
        decode_value(0, s) == Ok::<u64, DollcodeError>(v),
{
    lemma_decode_value_cases(0, s);
}

/// Zero canonicalization law: the empty sequence decodes to zero, and no
/// other input decodes to zero. Together with the postcondition of
/// [`to_dollcode`] — zero and only zero encodes to the empty sequence —
/// zero's representation is canonical.
pub proof fn lemma_zero_canonical(s: Seq<char>)
    ensures
        s.len() == 0 ==> decode_value(0, s) == Ok::<u64, DollcodeError>(0u64),
        decode_value(0, s) == Ok::<u64, DollcodeError>(0u64) ==> s.len() == 0,
{
    lemma_decode_value_min(0, s);
}

/// Overflow boundary law: a valid glyph sequence whose value exceeds
/// `u64::MAX` decodes to `Overflow`, never to a silently wrapped value.
pub proof fn lemma_decode_overflow(s: Seq<char>)
    requires
        valid_seq(s),
        seq_value(s) > u64::MAX,
    ensures
        decode_value(0, s) == Err::<u64, DollcodeError>(DollcodeError::Overflow),
{
    lemma_decode_value_cases(0, s);
}

/// Encodes a number into dollcode using biased base-3: each digit represents
/// a value 1-3, mapped to ▖, ▘, ▌ respectively.
///
/// Encoding always succeeds: zero becomes the empty sequence, and every
/// positive `u64` fits within `MAX_DOLLCODE_SIZE` digits.
pub fn to_dollcode(num: u64) -> (r: Result<Dollcode, DollcodeError>)
    ensures
        r is Ok,
        r matches Ok(d) ==> d.wf() && d@ == biased_digits(num as int) && seq_value(d@) == num && (
        d@.len() == 0 <==> num == 0),
{
    if num == 0 {
        proof {
            assert(biased_digits(0) =~= Seq::<char>::empty());
        }
        return Ok(Dollcode::new());
    }
    let mut digits: Vec<u8> = Vec::new();
    let mut n = num;
    let ghost mut msb: Seq<char> = Seq::empty();
    while n > 0
        invariant
            msb.len() == digits@.len(),
            digits@.len() <= MAX_DOLLCODE_SIZE,
            valid_seq(msb),
            forall|j: int|
                0 <= j < msb.len() ==> #[trigger] msb[j] == digit_char(
                    digits@[msb.len() - 1 - j] as int,
                ),
            forall|k: int| 0 <= k < digits@.len() ==> 1 <= #[trigger] digits@[k] <= 3,
            num == n * pow3(msb.len()) + seq_value(msb),
        decreases n,
    {
        proof {
            lemma_seq_value_nonneg(msb);
            if msb.len() >= MAX_DOLLCODE_SIZE {
                lemma_pow3_41();
                assert(n * pow3(msb.len()) >= pow3(msb.len())) by (nonlinear_arith)
                    requires
                        n >= 1,
                        pow3(msb.len()) >= 0,
                ;
                assert(false);
            }
        }
        let rem = (n - 1) % 3;
        let digit: u8 = (rem as u8) + 1;
        let n_next = (n - 1 - rem) / 3;
        proof {
            let l = msb.len();
            assert(n == 3 * (n_next as int) + digit);
            let c = digit_char(digit as int);
            lemma_seq_value_prepend(c, msb);
            assert(seq_value(seq![c].add(msb)) == digit * pow3(l) + seq_value(msb));
            assert(pow3(l + 1) == 3 * pow3(l));
            assert((3 * (n_next as int) + digit) * pow3(l) == (n_next as int) * pow3(l + 1) + digit
                * pow3(l)) by (nonlinear_arith)
                requires
                    pow3(l + 1) == 3 * pow3(l),
            ;
        }
        n = n_next;
        digits.push(digit);
        proof {
            msb = seq![digit_char(digit as int)].add(msb);
        }
    }
    let mut out: Vec<char> = Vec::new();
    let k = digits.len();
    let mut i: usize = 0;
    while i < k
        invariant
            k == digits@.len() == msb.len(),
            k <= MAX_DOLLCODE_SIZE,
            i <= k,
            out@.len() == i,
            forall|j: int| 0 <= j < i ==> #[trigger] out@[j] == msb[j],
            forall|j: int|
                0 <= j < msb.len() ==> #[trigger] msb[j] == digit_char(
                    digits@[msb.len() - 1 - j] as int,
                ),
            forall|m: int| 0 <= m < digits@.len() ==> 1 <= #[trigger] digits@[m] <= 3,
        decreases k - i,
    {
        let d = digits[k - 1 - i];
        let c = if d == 1 {
            '\u{2596}'
        } else if d == 2 {
            '\u{2598}'
        } else {
            '\u{258C}'
        };
        proof {
            assert(c == digit_char(digits@[k - 1 - i] as int));
            assert(c == msb[i as int]);
        }
        out.push(c);
        i += 1;
    }
    proof {
        assert(out@ =~= msb);
        if msb.len() == 0 {
            assert(num == 0);
        }
        lemma_biased_digits_value(num as int);
        lemma_seq_value_injective(msb, biased_digits(num as int));
    }
    Ok(Dollcode { chars: out })
}

/// Decodes dollcode back to a number, interpreting the sequence as biased
/// base-3 with ▖ = 1, ▘ = 2, ▌ = 3, most-significant digit first.
///
/// The result is exactly [`decode_value`] of the input: the value of the
/// sequence when every character is a glyph and the value fits in a `u64`;
/// otherwise the first failure encountered, `InvalidInput` for a character
/// that is not a glyph and `Overflow` for a value passing `u64::MAX`.
pub fn from_dollcode(chars: &[char]) -> (r: Result<u64, DollcodeError>)
    ensures
        r == decode_value(0, chars@),
{
    let n = chars.len();
    proof {
        assert(chars@.subrange(0, n as int) =~= chars@);
    }
    let mut result: u64 = 0;
    let mut i: usize = 0;
    while i < n
        invariant
            i <= n,
            n == chars@.len(),
            decode_value(0, chars@) == decode_value(
                result as int,
                chars@.subrange(i as int, n as int),
            ),
        decreases n - i,
    {
        let ghost rest = chars@.subrange(i as int, n as int);
        proof {
            assert(rest.len() > 0);
            assert(rest[0] == chars@[i as int]);
            assert(rest.subrange(1, rest.len() as int) =~= chars@.subrange(
                i as int + 1,
                n as int,
            ));
        }
        let c = chars[i];
        let m = match result.checked_mul(3) {
            Some(v) => v,
            None => {
                return Err(DollcodeError::Overflow);
            },
        };
        let val: u64 = if c == '\u{2596}' {
            1
        } else if c == '\u{2598}' {
            2
        } else if c == '\u{258C}' {
            3
        } else {
            return Err(DollcodeError::InvalidInput);
        };
        result = match m.checked_add(val) {
            Some(v) => v,
            None => {
                return Err(DollcodeError::Overflow);
            },
        };
        i += 1;
    }
    Ok(result)
}

} // verus!
