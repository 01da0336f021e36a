//! Text encoding and decoding.
//!
//! Each printable ASCII character (code 32 to 126) is encoded as the biased
//! base-3 digit sequence of its code — three to five glyphs — followed by a
//! zero-width-joiner delimiter. [`TextIterator`] walks a source string and
//! yields one such segment per character; [`TextDecoder`] walks an encoded
//! string, splitting at delimiters, and yields one character per run of
//! glyphs.

use vstd::prelude::*;
use vstd::string::StrSliceExecFns;

use crate::error::DollcodeError;
use crate::symbol::{
    biased_digits, char_digit, digit_char, is_symbol, lemma_biased_digits_value, lemma_pow3_mono,
    lemma_seq_value_bounds, pow3, seq_value, valid_seq,
};

verus! {

/// Zero-width joiner character used as a delimiter between dollcode segments.
pub const DELIMITER: char = '\u{200D}';

/// Capacity of a text segment: up to five glyphs plus the delimiter.
pub const TEXT_SEGMENT_SIZE: usize = 6;

/// The dollcode segment of one ASCII character.
#[derive(Debug, Clone)]
pub struct TextSegment {
    chars: Vec<char>,
}

impl View for TextSegment {
    type V = Seq<char>;

    closed spec fn view(&self) -> Seq<char> {
        self.chars@
    }
}

impl TextSegment {
    /// A segment never holds more than `TEXT_SEGMENT_SIZE` characters.
    pub open spec fn wf(&self) -> bool {
        self@.len() <= TEXT_SEGMENT_SIZE
    }

    /// Creates a new empty text segment.
    pub fn new() -> (s: Self)
        ensures
            s@ =~= Seq::<char>::empty(),
            s.wf(),
    {
        TextSegment { chars: Vec::new() }
    }

    /// Returns the number of characters in this segment.
    pub fn len(&self) -> (r: usize)
        ensures
            r == self@.len(),
    {
        self.chars.len()
    }

    /// Returns true if this segment contains no characters.
    pub fn is_empty(&self) -> (r: bool)
        ensures
            r == (self@.len() == 0),
    {
        self.chars.len() == 0
    }

    /// Returns a slice of the characters in this segment.
    pub fn as_chars(&self) -> (r: &[char])
        ensures
            r@ == self@,
    {
        self.chars.as_slice()
    }

    /// Appends a character, failing with `Overflow` once the segment is full.
    pub(crate) fn push(&mut self, c: char) -> (r: Result<(), DollcodeError>)
        ensures
            old(self)@.len() < TEXT_SEGMENT_SIZE ==> r is Ok && final(self)@ == old(self)@.push(
                c,
            ),
            old(self)@.len() >= TEXT_SEGMENT_SIZE ==> r == Err::<(), DollcodeError>(
                DollcodeError::Overflow,
            ) && final(self)@ == old(self)@,
    {
        if self.chars.len() >= TEXT_SEGMENT_SIZE {
            return Err(DollcodeError::Overflow);
        }
        self.chars.push(c);
        Ok(())
    }
}

impl Default for TextSegment {
    /// The default segment is the empty one.
    fn default() -> (s: Self)
        ensures
            s@ =~= Seq::<char>::empty(),
            s.wf(),
    {
        TextSegment::new()
    }
}

/// An iterator that converts ASCII text into dollcode segments, one segment
/// per source character, each terminated by [`DELIMITER`].
#[derive(Debug)]
pub struct TextIterator<'a> {
    input: &'a str,
    position: usize,
}

impl<'a> TextIterator<'a> {
    /// The characters of the source text.
    pub closed spec fn text(&self) -> Seq<char> {
        self.input@
    }

    /// The index of the next character to process, which is also the count
    /// of characters processed so far.
    pub closed spec fn pos(&self) -> int {
        self.position as int
    }

    #[verifier::type_invariant]
    spec fn type_inv(&self) -> bool {
        self.position <= self.input@.len()
    }

    /// Creates a new text iterator over the input string.
    pub fn new(input: &'a str) -> (it: Self)
        ensures
            it.text() == input@,
            it.pos() == 0,
    {
        TextIterator { input, position: 0 }
    }

    /// Converts one character into its dollcode segment, without the
    /// trailing delimiter, advancing the position counter.
    ///
    /// Characters outside the printable ASCII range 32..=126 are rejected
    /// with `InvalidChar`, carrying the position the counter stood at.
    fn process_char(&mut self, c: char) -> (r: Result<TextSegment, DollcodeError>)
        requires
            old(self).pos() < old(self).text().len(),
            old(self).text().len() <= usize::MAX,
        ensures
            final(self).text() == old(self).text(),
            final(self).pos() == old(self).pos() + 1,
            32 <= c as u32 <= 126 ==> (r matches Ok(seg) && seg@ == biased_digits(c as u32 as int)
                && seg.wf()),
            !(32 <= c as u32 <= 126) ==> r == Err::<TextSegment, DollcodeError>(
                DollcodeError::InvalidChar(c, old(self).pos() as usize),
            ),
    {
        proof {
            use_type_invariant(&*self);
        }
        let pos = self.position;
        self.position = pos + 1;
        let code = c as u32;
        if code < 32 || code > 126 {
            return Err(DollcodeError::InvalidChar(c, pos));
        }
        let ghost target = biased_digits(code as int);
        let mut num = code;
        let mut digits: Vec<u8> = Vec::new();
        let ghost mut tail: Seq<char> = Seq::empty();
        while num > 0
            invariant
                num <= 126,
                tail.len() == digits@.len(),
                target == biased_digits(num as int).add(tail),
                forall|j: int|
                    0 <= j < tail.len() ==> #[trigger] tail[j] == digit_char(
                        digits@[tail.len() - 1 - j] as int,
                    ),
                forall|m: int| 0 <= m < digits@.len() ==> 1 <= #[trigger] digits@[m] <= 3,
            decreases num,
        {
            let rem = num % 3;
            let digit: u8 = if rem == 0 {
                3
            } else {
                rem as u8
            };
            let num_next = if rem == 0 {
                num / 3 - 1
            } else {
                num / 3
            };
            proof {
                assert((num - 1) / 3 == num_next && (num - 1) % 3 + 1 == digit);
                let g = digit_char(digit as int);
                assert(biased_digits(num as int) == biased_digits(num_next as int).push(g));
                assert(biased_digits(num_next as int).push(g).add(tail) =~= biased_digits(
                    num_next as int,
                ).add(seq![g].add(tail)));
                tail = seq![g].add(tail);
            }
            num = num_next;
            digits.push(digit);
        }
        proof {
            assert(biased_digits(0) =~= Seq::<char>::empty());
            assert(biased_digits(0).add(tail) =~= tail);
            assert(target == tail);
            // a code of at most 126 never needs more than five digits
            lemma_biased_digits_value(code as int);
            lemma_seq_value_bounds(target);
            if target.len() > 5 {
                lemma_pow3_mono(6, target.len());
                reveal_with_fuel(pow3, 7);
                assert(false);
            }
        }
        let mut segment = TextSegment::new();
        let k = digits.len();
        let mut i: usize = 0;
        while i < k
            invariant
                k == digits@.len() == tail.len(),
                k <= 5,
                i <= k,
                segment@.len() == i,
                segment.wf(),
                target == tail,
                forall|j: int| 0 <= j < i ==> #[trigger] segment@[j] == tail[j],
                forall|j: int|
                    0 <= j < tail.len() ==> #[trigger] tail[j] == digit_char(
                        digits@[tail.len() - 1 - j] as int,
                    ),
                forall|m: int| 0 <= m < digits@.len() ==> 1 <= #[trigger] digits@[m] <= 3,
            decreases k - i,
        {
            let d = digits[k - 1 - i];
            let g = if d == 1 {
                '\u{2596}'
            } else if d == 2 {
                '\u{2598}'
            } else {
                '\u{258C}'
            };
            proof {
                assert(g == digit_char(digits@[k - 1 - i] as int));
                assert(g == tail[i as int]);
            }
            segment.push(g)?;
            i += 1;
        }
        proof {
            assert(segment@ =~= target);
        }
        Ok(segment)
    }

    /// Yields the segment of the next source character — its dollcode digits
    /// followed by [`DELIMITER`] — or `InvalidChar` for a character outside
    /// the printable ASCII range, or `None` once the text is exhausted.
    pub fn next(&mut self) -> (r: Option<Result<TextSegment, DollcodeError>>)
        ensures
            final(self).text() == old(self).text(),
            old(self).pos() >= old(self).text().len() ==> r is None && final(self).pos() == old(
                self,
            ).pos(),
            old(self).pos() < old(self).text().len() ==> {
                let c = old(self).text()[old(self).pos()];
                &&& final(self).pos() == old(self).pos() + 1
                &&& 32 <= c as u32 <= 126 ==> (r matches Some(Ok(seg)) && seg@ == biased_digits(
                    c as u32 as int,
                ).push(DELIMITER) && seg.wf())
                &&& !(32 <= c as u32 <= 126) ==> r == Some(
                    Err::<TextSegment, DollcodeError>(
                        DollcodeError::InvalidChar(c, old(self).pos() as usize),
                    ),
                )
            },
    {
        proof {
            use_type_invariant(&*self);
        }
        let len = self.input.unicode_len();
        if self.position >= len {
            return None;
        }
        let c = self.input.get_char(self.position);
        match self.process_char(c) {
            Ok(mut seg) => {
                proof {
                    if seg@.len() > 5 {
                        lemma_biased_digits_value(c as u32 as int);
                        lemma_seq_value_bounds(seg@);
                        lemma_pow3_mono(6, seg@.len());
                        reveal_with_fuel(pow3, 7);
                        assert(false);
                    }
                }
                match seg.push(DELIMITER) {
                    Ok(_) => Some(Ok(seg)),
                    Err(e) => Some(Err(e)),
                }
            },
            Err(e) => Some(Err(e)),
        }
    }
}

/// The first index at or after `i` holding [`DELIMITER`], or the length of
/// the sequence if there is none: the end of the delimiter-free run that
/// starts at `i`.
pub open spec fn seg_end(s: Seq<char>, i: int) -> int
    decreases s.len() - i,
{
    if i < 0 || i >= s.len() {
        s.len() as int
    } else if s[i] == DELIMITER {
        i
    } else {
        seg_end(s, i + 1)
    }
}

/// `seg_end` is pinned by any index k at a delimiter (or the end) with no
/// delimiter before it.
proof fn lemma_seg_end_pin(s: Seq<char>, i: int, k: int)
    requires
        0 <= i <= k <= s.len(),
        forall|j: int| i <= j < k ==> s[j] != DELIMITER,
        k == s.len() || s[k] == DELIMITER,
    ensures
        seg_end(s, i) == k,
    decreases k - i,
{
    if i < k {
        lemma_seg_end_pin(s, i + 1, k);
    }
}

/// The outcome of decoding one delimiter-free run of glyphs, starting from
/// the accumulated value `acc` and the symbol counter `pos`, together with
/// the counter's final value.
///
/// Each glyph multiplies the value by 3 and adds its digit; a character that
/// is not a glyph fails with `InvalidChar` at the counter's current value; a
/// value passing 126 fails at once with `InvalidInput`, as does a final
/// value below 32 (too short a run); the counter advances once per accepted
/// glyph. A successful run yields the ASCII code of the decoded character.
pub open spec fn run_decode(seg: Seq<char>, acc: int, pos: int) -> (Result<int, DollcodeError>, int)
    decreases seg.len(),
{
    if seg.len() == 0 {
        (
            if 32 <= acc <= 126 {
                Ok(acc)
            } else {
                Err(DollcodeError::InvalidInput)
            },
            pos,
        )
    } else if !is_symbol(seg[0]) {
        (Err(DollcodeError::InvalidChar(seg[0], pos as usize)), pos)
    } else if acc * 3 + char_digit(seg[0]) > 126 {
        (Err(DollcodeError::InvalidInput), pos)
    } else {
        run_decode(seg.subrange(1, seg.len() as int), acc * 3 + char_digit(seg[0]), pos + 1)
    }
}

proof fn lemma_run_decode_ok(seg: Seq<char>, acc: int, pos: int)
    requires
        valid_seq(seg),
        0 <= acc,
        acc * pow3(seg.len()) + seq_value(seg) <= 126,
    ensures
        ({
            let full = acc * pow3(seg.len()) + seq_value(seg);
            run_decode(seg, acc, pos) == (
                if 32 <= full {
                    Ok::<int, DollcodeError>(full)
                } else {
                    Err::<int, DollcodeError>(DollcodeError::InvalidInput)
                },
                pos + seg.len(),
            )
        }),
    decreases seg.len(),
{
    lemma_seq_value_bounds(seg);
    if seg.len() > 0 {
        let d = char_digit(seg[0]);
        let rest = seg.subrange(1, seg.len() as int);
        let p = pow3(rest.len());
        let full = acc * pow3(seg.len()) + seq_value(seg);
        assert(seg =~= seq![seg[0]].add(rest));
        crate::symbol::lemma_seq_value_prepend(seg[0], rest);
        crate::symbol::lemma_seq_value_nonneg(rest);
        crate::symbol::lemma_pow3_pos(rest.len());
        assert(valid_seq(rest));
        assert(pow3(seg.len()) == 3 * p);
        assert(is_symbol(seg[0]) && 1 <= d <= 3);
        assert(full == (acc * 3 + d) * p + seq_value(rest)) by (nonlinear_arith)
            requires
                full == acc * (3 * p) + (d * p + seq_value(rest)),
        ;
        assert((acc * 3 + d) * p >= acc * 3 + d) by (nonlinear_arith)
            requires
                acc * 3 + d >= 0,
                p >= 1,
        ;
        assert(acc * 3 + d <= 126);
        lemma_run_decode_ok(rest, acc * 3 + d, pos + 1);
    }
}

/// Round-trip law for the delimiter-terminated codec: the glyph run that
/// [`TextIterator`] emits for a printable ASCII character decodes — under
/// [`run_decode`], which is exactly what [`TextDecoder`] computes on the run
/// between two delimiters — to that character's code, advancing the glyph
/// counter by the run's length.
pub proof fn lemma_segment_decode(c: char, pos: int)
    requires
        32 <= c as u32 <= 126,
    ensures
        ({
            let seg = biased_digits(c as u32 as int);
            run_decode(seg, 0, pos) == (
                Ok::<int, DollcodeError>(c as u32 as int),
                pos + seg.len(),
            )
        }),
{
    let code = c as u32 as int;
    lemma_biased_digits_value(code);
    lemma_run_decode_ok(biased_digits(code), 0, pos);
}

/// An iterator that converts dollcode back into ASCII text: the input is
/// split at [`DELIMITER`] and each delimiter-free run of glyphs is decoded
/// to one character.
#[derive(Debug)]
pub struct TextDecoder<'a> {
    input: &'a str,
    cursor: usize,
    position: usize,
}

impl<'a> TextDecoder<'a> {
    /// The characters of the encoded input.
    pub closed spec fn text(&self) -> Seq<char> {
        self.input@
    }

    /// The index of the next character to examine.
    pub closed spec fn cursor(&self) -> int {
        self.cursor as int
    }

    /// The count of glyphs decoded so far, used for error reporting.
    pub closed spec fn pos(&self) -> int {
        self.position as int
    }

    #[verifier::type_invariant]
    spec fn type_inv(&self) -> bool {
        self.cursor <= self.input@.len() && self.position <= self.cursor
    }

    /// Creates a new decoder over the encoded input.
    pub fn new(encoded: &'a str) -> (it: Self)
        ensures
            it.text() == encoded@,
            it.cursor() == 0,
            it.pos() == 0,
    {
        TextDecoder { input: encoded, cursor: 0, position: 0 }
    }

    /// Decodes the next delimiter-free run of the input.
    ///
    /// Returns `None` at the end of the input or at an empty run (two
    /// adjacent delimiters, or a leading one); otherwise decodes the run as
    /// [`run_decode`] describes and steps past it and its delimiter.
    pub fn next(&mut self) -> (r: Option<Result<char, DollcodeError>>)
        ensures
            final(self).text() == old(self).text(),
            old(self).cursor() >= old(self).text().len() ==> r is None && final(self).cursor()
                == old(self).cursor() && final(self).pos() == old(self).pos(),
            old(self).cursor() < old(self).text().len() ==> {
                let s = old(self).text();
                let cu = old(self).cursor();
                let e = seg_end(s, cu);
                let fin_cursor = final(self).cursor();
                let fin_pos = final(self).pos();
                &&& (e == cu ==> r is None && fin_cursor == e + 1 && fin_pos == old(self).pos())
                &&& (e > cu ==> {
                    let rd = run_decode(s.subrange(cu, e), 0, old(self).pos());
                    &&& fin_cursor == (if e < s.len() { e + 1 } else { e })
                    &&& fin_pos == rd.1
                    &&& (rd.0 matches Ok(code) ==> (r matches Some(Ok(c)) && c as u32 == code))
                    &&& (rd.0 matches Err(er) ==> r == Some(Err::<char, DollcodeError>(er)))
                })
            },
    {
        proof {
            use_type_invariant(&*self);
        }
        let ghost s = self.input@;
        let len = self.input.unicode_len();
        if self.cursor >= len {
            return None;
        }
        let start = self.cursor;
        let mut k = start;
        while k < len && self.input.get_char(k) != DELIMITER
            invariant
                start <= k <= len,
                len == s.len(),
                self.input@ == s,
                forall|j: int| start <= j < k ==> s[j] != DELIMITER,
            decreases len - k,
        {
            k += 1;
        }
        proof {
            lemma_seg_end_pin(s, start as int, k as int);
        }
        if k == start {
            // an empty run: the cursor stands on a delimiter; step past it
            self.cursor = k + 1;
            return None;
        }
        self.cursor = if k < len {
            k + 1
        } else {
            k
        };
        let ghost seg = s.subrange(start as int, k as int);
        let ghost pos0 = self.position as int;
        let ghost newcur = self.cursor;
        let mut value: u32 = 0;
        let mut j = start;
        while j < k
            invariant
                start <= j <= k <= len,
                len == s.len(),
                self.input@ == s,
                s == old(self).text(),
                start == old(self).cursor(),
                pos0 == old(self).pos(),
                k == seg_end(s, start as int),
                start < k,
                self.cursor == newcur,
                k <= newcur <= len,
                k < len ==> newcur == k + 1,
                k >= len ==> newcur == k,
                value <= 126,
                self.position <= j,
                seg == s.subrange(start as int, k as int),
                run_decode(seg, 0, pos0) == run_decode(
                    s.subrange(j as int, k as int),
                    value as int,
                    self.position as int,
                ),
            decreases k - j,
        {
            let ghost rest = s.subrange(j as int, k as int);
            proof {
                assert(rest.len() > 0);
                assert(rest[0] == s[j as int]);
                assert(rest.subrange(1, rest.len() as int) =~= s.subrange(
                    j as int + 1,
                    k as int,
                ));
            }
            let c = self.input.get_char(j);
            let digit: u32 = if c == '\u{2596}' {
                1
            } else if c == '\u{2598}' {
                2
            } else if c == '\u{258C}' {
                3
            } else {
                return Some(Err(DollcodeError::InvalidChar(c, self.position)));
            };
            let v2 = value * 3 + digit;
            if v2 > 126 {
                return Some(Err(DollcodeError::InvalidInput));
            }
            value = v2;
            self.position = self.position + 1;
            j += 1;
        }
        proof {
            assert(s.subrange(k as int, k as int) =~= Seq::<char>::empty());
        }
        if 32 <= value && value <= 126 {
            Some(Ok((value as u8) as char))
        } else {
            Some(Err(DollcodeError::InvalidInput))
        }
    }
}

} // verus!
