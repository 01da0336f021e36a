//! The fixed-width text codec over a 95-character alphabet.
//!
//! Each of the 95 printable ASCII characters is assigned a position 0 to 94:
//! uppercase letters first, then lowercase letters, then digits, then the
//! space, then the remaining punctuation in ascending ASCII order. A
//! character is encoded as exactly five glyphs: the standard (0-based)
//! ternary digits of its position, most significant first, with digit values
//! 0, 1, 2 mapped to the three glyphs in order. Fixed width makes a
//! concatenated stream self-delimiting: decoding chunks it into consecutive
//! non-overlapping five-glyph windows.
//!
//! This digit convention is deliberately distinct from the biased one the
//! numeric codec uses; the two codecs share only the glyph set.

use vstd::prelude::*;

use crate::error::DollcodeError;
use crate::symbol::{char_digit, is_symbol, lemma_pow3_pos, pow3, valid_seq};
use crate::text::TextSegment;

verus! {

/// Width of a fixed text segment, in glyphs: 3^5 = 243 > 95.
pub const SEGMENT_WIDTH: usize = 5;

/// Position of a character in the 95-entry alphabet, or -1 if the character
/// is not in it. Order: 'A'-'Z' at 0-25, 'a'-'z' at 26-51, '0'-'9' at
/// 52-61, the space at 62, then the 32 remaining printable ASCII characters
/// in ascending code order at 63-94.
pub open spec fn alpha_pos(c: char) -> int {
    let u = c as int;
    if 65 <= u <= 90 {
        u - 65
    } else if 97 <= u <= 122 {
        26 + (u - 97)
    } else if 48 <= u <= 57 {
        52 + (u - 48)
    } else if u == 32 {
        62
    } else if 33 <= u <= 47 {
        63 + (u - 33)
    } else if 58 <= u <= 64 {
        78 + (u - 58)
    } else if 91 <= u <= 96 {
        85 + (u - 91)
    } else if 123 <= u <= 126 {
        91 + (u - 123)
    } else {
        -1
    }
}

/// The character belongs to the 95-entry alphabet.
pub open spec fn in_alphabet(c: char) -> bool {
    alpha_pos(c) >= 0
}

/// The glyph of one standard ternary digit: 0 -> ▖, 1 -> ▘, 2 -> ▌.
pub open spec fn std_digit_char(d: int) -> char {
    if d == 0 {
        '\u{2596}'
    } else if d == 1 {
        '\u{2598}'
    } else {
        '\u{258C}'
    }
}

/// The standard (0-based) digit value of a glyph; -1 for any other
/// character.
pub open spec fn std_char_digit(c: char) -> int {
    char_digit(c) - 1
}

/// The `w` least-significant standard ternary digits of `p`, as glyphs, most
/// significant first.
pub open spec fn std_digits(p: int, w: nat) -> Seq<char>
    decreases w,
{
    if w == 0 {
        Seq::empty()
    } else {
        std_digits(p / 3, (w - 1) as nat).push(std_digit_char(p % 3))
    }
}

/// The fixed five-glyph segment encoding alphabet position `p`.
pub open spec fn fixed_segment(p: int) -> Seq<char> {
    std_digits(p, 5)
}

/// The value of a glyph sequence under the standard 0-based digit
/// convention, most significant digit first.
pub open spec fn std_val(s: Seq<char>) -> int
    decreases s.len(),
{
    if s.len() == 0 {
        0
    } else {
        std_val(s.drop_last()) * 3 + std_char_digit(s.last())
    }
}

proof fn lemma_std_digits(p: int, w: nat)
    requires
        0 <= p < pow3(w),
    ensures
        std_digits(p, w).len() == w,
        valid_seq(std_digits(p, w)),
        std_val(std_digits(p, w)) == p,
    decreases w,
{
    if w > 0 {
        let wm = (w - 1) as nat;
        assert(pow3(w) == 3 * pow3(wm));
        assert(0 <= p / 3 < pow3(wm));
        lemma_std_digits(p / 3, wm);
        let s = std_digits(p, w);
        let s0 = std_digits(p / 3, wm);
        assert(s.drop_last() =~= s0);
        assert(s.last() == std_digit_char(p % 3));
        assert(std_char_digit(std_digit_char(p % 3)) == p % 3);
        assert(std_val(s) == (p / 3) * 3 + p % 3);
        assert(forall|i: int| 0 <= i < s.len() ==> is_symbol(s[i])) by {
            assert(forall|i: int| 0 <= i < s.len() - 1 ==> s[i] == s0[i] && is_symbol(s[i]));
        }
    }
}

/// Segment shape and value law: the fixed segment of any position below
/// 3^5 is exactly five glyphs, and its standard ternary value is the
/// position itself.
pub proof fn lemma_fixed_segment_value(p: int)
    requires
        0 <= p <= 242,
    ensures
        fixed_segment(p).len() == 5,
        valid_seq(fixed_segment(p)),
        std_val(fixed_segment(p)) == p,
{
    reveal_with_fuel(pow3, 6);
    lemma_std_digits(p, 5);
}

/// Distinct alphabet characters occupy distinct positions: the alphabet is
/// a bijection onto 0..=94.
pub proof fn lemma_alpha_pos_injective(c1: char, c2: char)
    requires
        alpha_pos(c1) >= 0,
        alpha_pos(c1) == alpha_pos(c2),
    ensures
        c1 == c2,
{
    assert(c1 as int == c2 as int);
    assert(c1 == c2);
}

/// Alphabet round-trip law: a character decoded from the segment that
/// encodes an alphabet character `c` — any character whose position equals
/// the segment's value — is `c` itself.
pub proof fn lemma_alphabet_round_trip(c: char, decoded: char)
    requires
        in_alphabet(c),
        alpha_pos(decoded) == std_val(fixed_segment(alpha_pos(c))),
    ensures
        decoded == c,
{
    assert(alpha_pos(c) <= 94);
    lemma_fixed_segment_value(alpha_pos(c));
    lemma_alpha_pos_injective(c, decoded);
}

/// Position of a character in the alphabet, or `None` if it has none.
pub fn alphabet_position(c: char) -> (r: Option<u8>)
    ensures
        in_alphabet(c) ==> r == Some(alpha_pos(c) as u8),
        !in_alphabet(c) ==> r is None,
{
    let u = c as u32;
    if 65 <= u && u <= 90 {
        Some((u - 65) as u8)
    } else if 97 <= u && u <= 122 {
        Some((26 + (u - 97)) as u8)
    } else if 48 <= u && u <= 57 {
        Some((52 + (u - 48)) as u8)
    } else if u == 32 {
        Some(62)
    } else if 33 <= u && u <= 47 {
        Some((63 + (u - 33)) as u8)
    } else if 58 <= u && u <= 64 {
        Some((78 + (u - 58)) as u8)
    } else if 91 <= u && u <= 96 {
        Some((85 + (u - 91)) as u8)
    } else if 123 <= u && u <= 126 {
        Some((91 + (u - 123)) as u8)
    } else {
        None
    }
}

/// Character at an alphabet position; the inverse lookup fails, rather than
/// guessing, on any position outside 0..=94.
pub fn position_char(p: u8) -> (r: Option<char>)
    ensures
        p <= 94 ==> (r matches Some(c) && alpha_pos(c) == p as int),
        p > 94 ==> r is None,
{
    if p > 94 {
        return None;
    }
    let b: u8 = if p < 26 {
        65 + p
    } else if p < 52 {
        97 + (p - 26)
    } else if p < 62 {
        48 + (p - 52)
    } else if p == 62 {
        32
    } else if p < 78 {
        33 + (p - 63)
    } else if p < 85 {
        58 + (p - 78)
    } else if p < 91 {
        91 + (p - 85)
    } else {
        123 + (p - 91)
    };
    Some(b as char)
}

/// Encodes one alphabet character as its fixed five-glyph segment.
///
/// A character outside the alphabet fails with `InvalidChar` carrying the
/// caller-supplied position, used only for error reporting.
pub fn encode_char(c: char, position: usize) -> (r: Result<TextSegment, DollcodeError>)
    ensures
        in_alphabet(c) ==> (r matches Ok(seg) && seg@ == fixed_segment(alpha_pos(c)) && seg.wf()),
        !in_alphabet(c) ==> r == Err::<TextSegment, DollcodeError>(
            DollcodeError::InvalidChar(c, position),
        ),
{
    let p = match alphabet_position(c) {
        Some(p) => p,
        None => {
            return Err(DollcodeError::InvalidChar(c, position));
        },
    };
    let ghost target = fixed_segment(p as int);
    let mut rev: Vec<u8> = Vec::new();
    let mut n: u8 = p;
    let mut w: usize = 0;
    let ghost mut tail: Seq<char> = Seq::empty();
    while w < 5
        invariant
            w <= 5,
            n <= 94,
            tail.len() == w,
            rev@.len() == w,
            target == std_digits(n as int, (5 - w) as nat).add(tail),
            forall|j: int|
                0 <= j < w ==> #[trigger] tail[j] == std_digit_char(rev@[w - 1 - j] as int),
            forall|m: int| 0 <= m < w ==> #[trigger] rev@[m] <= 2,
        decreases 5 - w,
    {
        let d = n % 3;
        proof {
            let g = std_digit_char(d as int);
            assert(std_digits(n as int, (5 - w) as nat) == std_digits(
                n as int / 3,
                (4 - w) as nat,
            ).push(g));
            assert(std_digits(n as int / 3, (4 - w) as nat).push(g).add(tail) =~= std_digits(
                n as int / 3,
                (4 - w) as nat,
            ).add(seq![g].add(tail)));
            tail = seq![g].add(tail);
        }
        n = n / 3;
        rev.push(d);
        w += 1;
    }
    proof {
        assert(std_digits(n as int, 0) =~= Seq::<char>::empty());
        assert(std_digits(n as int, 0).add(tail) =~= tail);
        assert(target == tail);
    }
    let mut segment = TextSegment::new();
    let mut i: usize = 0;
    while i < 5
        invariant
            i <= 5,
            rev@.len() == 5,
            tail.len() == 5,
            target == tail,
            segment@.len() == i,
            segment.wf(),
            forall|j: int| 0 <= j < i ==> #[trigger] segment@[j] == tail[j],
            forall|j: int|
                0 <= j < 5 ==> #[trigger] tail[j] == std_digit_char(rev@[5 - 1 - j] as int),
            forall|m: int| 0 <= m < 5 ==> #[trigger] rev@[m] <= 2,
        decreases 5 - i,
    {
        let d = rev[4 - i];
        let g = if d == 0 {
            '\u{2596}'
        } else if d == 1 {
            '\u{2598}'
        } else {
            '\u{258C}'
        };
        proof {
            assert(g == std_digit_char(rev@[4 - i] as int));
            assert(g == tail[i as int]);
        }
        let _ = segment.push(g);
        i += 1;
    }
    proof {
        assert(segment@ =~= target);
    }
    Ok(segment)
}

/// Decodes one fixed five-glyph segment back to its alphabet character.
///
/// Fails with `InvalidInput` on a segment that is not exactly five glyphs,
/// contains a character that is not a glyph, or whose value exceeds 94.
pub fn decode_segment(segment: &[char]) -> (r: Result<char, DollcodeError>)
    ensures
        segment@.len() == 5 && valid_seq(segment@) && std_val(segment@) <= 94 ==> (r matches Ok(c)
            && alpha_pos(c) == std_val(segment@)),
        !(segment@.len() == 5 && valid_seq(segment@) && std_val(segment@) <= 94) ==> r == Err::<
            char,
            DollcodeError,
        >(DollcodeError::InvalidInput),
{
    if segment.len() != 5 {
        return Err(DollcodeError::InvalidInput);
    }
    let mut value: u32 = 0;
    let mut i: usize = 0;
    proof {
        assert(segment@.subrange(0, 0) =~= Seq::<char>::empty());
    }
    while i < 5
        invariant
            i <= 5,
            segment@.len() == 5,
            valid_seq(segment@.subrange(0, i as int)),
            std_val(segment@.subrange(0, i as int)) == value,
            value as int <= pow3(i as nat) - 1,
        decreases 5 - i,
    {
        let c = segment[i];
        let digit: u32 = if c == '\u{2596}' {
            0
        } else if c == '\u{2598}' {
            1
        } else if c == '\u{258C}' {
            2
        } else {
            return Err(DollcodeError::InvalidInput);
        };
        proof {
            reveal_with_fuel(pow3, 6);
            lemma_pow3_pos(i as nat);
            assert(segment@.subrange(0, i as int + 1).drop_last() =~= segment@.subrange(
                0,
                i as int,
            ));
            assert(segment@.subrange(0, i as int + 1).last() == segment@[i as int]);
            assert(std_char_digit(c) == digit);
        }
        value = value * 3 + digit;
        i += 1;
    }
    proof {
        assert(segment@.subrange(0, 5) =~= segment@);
    }
    if value > 94 {
        return Err(DollcodeError::InvalidInput);
    }
    match position_char(value as u8) {
        Some(c) => Ok(c),
        None => Err(DollcodeError::InvalidInput),
    }
}

/// The encoded stream of a text: the concatenation of the fixed segments of
/// its characters, in order. No separators are needed, since fixed width
/// makes the concatenation self-delimiting.
pub open spec fn encode_stream(t: Seq<char>) -> Seq<char>
    decreases t.len(),
{
    if t.len() == 0 {
        Seq::empty()
    } else {
        encode_stream(t.drop_last()).add(fixed_segment(alpha_pos(t.last())))
    }
}

/// The `w`-th five-glyph window of an encoded stream.
pub open spec fn stream_window(s: Seq<char>, w: int) -> Seq<char> {
    s.subrange(5 * w, 5 * w + 5)
}

/// The stream has whole-window length and every window is five glyphs whose
/// value is an alphabet position.
pub open spec fn stream_ok(s: Seq<char>) -> bool {
    &&& s.len() % 5 == 0
    &&& forall|w: int|
        0 <= w < s.len() / 5 ==> valid_seq(#[trigger] stream_window(s, w)) && std_val(
            stream_window(s, w),
        ) <= 94
}

/// Each window of an encoded stream is the fixed segment of the
/// corresponding source character.
proof fn lemma_encode_stream_windows(t: Seq<char>)
    requires
        forall|i: int| 0 <= i < t.len() ==> in_alphabet(#[trigger] t[i]),
    ensures
        encode_stream(t).len() == 5 * t.len(),
        forall|w: int|
            0 <= w < t.len() ==> stream_window(encode_stream(t), w) == fixed_segment(
                alpha_pos(t[w]),
            ),
    decreases t.len(),
{
    if t.len() > 0 {
        let u = t.drop_last();
        let last = t.last();
        assert(forall|i: int| 0 <= i < u.len() ==> in_alphabet(#[trigger] u[i]));
        lemma_encode_stream_windows(u);
        assert(0 <= alpha_pos(last) <= 94);
        lemma_fixed_segment_value(alpha_pos(last));
        let full = encode_stream(t);
        assert forall|w: int| 0 <= w < t.len() implies stream_window(full, w) == fixed_segment(
            alpha_pos(t[w]),
        ) by {
            if w < u.len() {
                assert(stream_window(full, w) =~= stream_window(encode_stream(u), w));
                assert(t[w] == u[w]);
            } else {
                assert(stream_window(full, w) =~= fixed_segment(alpha_pos(last)));
            }
        }
    }
}

/// Full-text round-trip law: a text of alphabet characters, encoded as the
/// concatenation of its fixed segments and decoded window by window — any
/// `decoded` sequence whose `w`-th character sits at the alphabet position
/// given by the `w`-th window's value, which is what [`decode_text`]
/// guarantees of its result — is the original text.
pub proof fn lemma_text_round_trip(t: Seq<char>, decoded: Seq<char>)
    requires
        forall|i: int| 0 <= i < t.len() ==> in_alphabet(#[trigger] t[i]),
        5 * decoded.len() == encode_stream(t).len(),
        forall|w: int|
            0 <= w < decoded.len() ==> alpha_pos(#[trigger] decoded[w]) == std_val(
                stream_window(encode_stream(t), w),
            ),
    ensures
        decoded == t,
{
    lemma_encode_stream_windows(t);
    assert(decoded.len() == t.len());
    assert forall|w: int| 0 <= w < t.len() implies decoded[w] == t[w] by {
        assert(0 <= alpha_pos(t[w]) <= 94);
        lemma_fixed_segment_value(alpha_pos(t[w]));
        lemma_alpha_pos_injective(t[w], decoded[w]);
    }
    assert(decoded =~= t);
}

/// Encodes a text as the concatenation of the fixed segments of its
/// characters. Fails with `InvalidChar` at the first character outside the
/// alphabet, carrying the character and its index.
pub fn encode_text(input: &str) -> (r: Result<Vec<char>, DollcodeError>)
    ensures
        (forall|i: int| 0 <= i < input@.len() ==> in_alphabet(#[trigger] input@[i])) ==> (r matches
            Ok(v) && v@ == encode_stream(input@)),
        (exists|i: int| 0 <= i < input@.len() && !in_alphabet(#[trigger] input@[i])) ==> (r matches
            Err(e) && e matches DollcodeError::InvalidChar(c, i) && i < input@.len()
            && input@[i as int] == c && !in_alphabet(c) && (forall|m: int|
            0 <= m < i ==> in_alphabet(#[trigger] input@[m]))),
{
    let len = input.unicode_len();
    let mut out: Vec<char> = Vec::new();
    let mut i: usize = 0;
    proof {
        assert(input@.subrange(0, 0) =~= Seq::<char>::empty());
    }
    while i < len
        invariant
            i <= len,
            len == input@.len(),
            forall|m: int| 0 <= m < i ==> in_alphabet(#[trigger] input@[m]),
            out@ == encode_stream(input@.subrange(0, i as int)),
        decreases len - i,
    {
        let c = input.get_char(i);
        let seg = match encode_char(c, i) {
            Ok(seg) => seg,
            Err(e) => {
                return Err(e);
            },
        };
        proof {
            lemma_fixed_segment_value(alpha_pos(c));
        }
        let sl = seg.as_chars();
        let ghost prev = out@;
        let mut j: usize = 0;
        while j < 5
            invariant
                j <= 5,
                sl@.len() == 5,
                out@ == prev.add(sl@.subrange(0, j as int)),
            decreases 5 - j,
        {
            proof {
                assert(sl@.subrange(0, j as int + 1) =~= sl@.subrange(0, j as int).push(
                    sl@[j as int],
                ));
                assert(prev.add(sl@.subrange(0, j as int)).push(sl@[j as int]) =~= prev.add(
                    sl@.subrange(0, j as int + 1),
                ));
            }
            out.push(sl[j]);
            j += 1;
        }
        proof {
            let pre = input@.subrange(0, i as int);
            let ext = input@.subrange(0, i as int + 1);
            assert(sl@.subrange(0, 5) =~= sl@);
            assert(ext.drop_last() =~= pre);
            assert(ext.last() == input@[i as int]);
            assert(out@ == encode_stream(ext));
        }
        i += 1;
    }
    proof {
        assert(input@.subrange(0, len as int) =~= input@);
    }
    Ok(out)
}

/// Decodes a stream of fixed segments back to text, chunking the input into
/// consecutive non-overlapping five-glyph windows.
///
/// Fails with `InvalidInput` at the first bad window — one holding a
/// character that is not a glyph or a value above 94 — or on a final
/// partial window of one to four characters; an empty input yields an empty
/// text.
pub fn decode_text(input: &[char]) -> (r: Result<Vec<char>, DollcodeError>)
    ensures
        stream_ok(input@) ==> (r matches Ok(out) && 5 * out@.len() == input@.len() && (forall|
            w: int,
        |
            0 <= w < out@.len() ==> alpha_pos(#[trigger] out@[w]) == std_val(
                stream_window(input@, w),
            ))),
        !stream_ok(input@) ==> r == Err::<Vec<char>, DollcodeError>(DollcodeError::InvalidInput),
{
    let n = input.len();
    let mut out: Vec<char> = Vec::new();
    let mut i: usize = 0;
    while n - i >= 5
        invariant
            i % 5 == 0,
            i <= n,
            n == input@.len(),
            out@.len() * 5 == i,
            forall|w: int|
                0 <= w < out@.len() ==> valid_seq(#[trigger] stream_window(input@, w)) && std_val(
                    stream_window(input@, w),
                ) <= 94 && alpha_pos(out@[w]) == std_val(stream_window(input@, w)),
        decreases n - i,
    {
        let seg = &input[i..i + 5];
        let ghost w0 = i as int / 5;
        proof {
            assert(5 * w0 == i);
            assert(seg@ =~= stream_window(input@, w0));
        }
        match decode_segment(seg) {
            Ok(c) => {
                out.push(c);
            },
            Err(_) => {
                proof {
                    assert(!(valid_seq(stream_window(input@, w0)) && std_val(
                        stream_window(input@, w0),
                    ) <= 94));
                    assert(w0 < input@.len() / 5);
                }
                return Err(DollcodeError::InvalidInput);
            },
        }
        i += 5;
    }
    if i != n {
        proof {
            assert(n % 5 != 0);
        }
        return Err(DollcodeError::InvalidInput);
    }
    Ok(out)
}

} // verus!
