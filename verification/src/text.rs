//! Small verified helpers for reading the text of a field.

use vstd::prelude::*;
use vstd::string::is_ascii_spec_bytes;
use vstd::utf8::{is_ascii_chars, is_ascii_chars_nat_bound};

verus! {

/// The character of a text that consists of exactly one ASCII character.
pub open spec fn sole_ascii_char(text: Seq<char>) -> Option<char> {
    if text.len() == 1 && text[0] <= '\u{7f}' {
        Some(text[0])
    } else {
        None
    }
}

/// True when `bytes` holds, one byte per character, the code points of `chars`.
pub open spec fn bytes_spell(bytes: Seq<u8>, chars: Seq<char>) -> bool {
    &&& bytes.len() == chars.len()
    &&& forall|i: int| 0 <= i < chars.len() ==> #[trigger] bytes[i] as int == chars[i] as int
}

/// A character as itself. A character that passes through here is known to
/// the solver as a character, which one read out of a sequence is not.
spec fn as_char(c: char) -> char {
    c
}

/// A text whose characters are all at most `'\u{7f}'` is ASCII.
pub proof fn lemma_ascii_by_bound(text: Seq<char>)
    requires
        forall|i: int| 0 <= i < text.len() ==> #[trigger] text[i] <= '\u{7f}',
    ensures
        is_ascii_chars(text),
{
    assert forall|i: int| 0 <= i < text.len() implies '\0' <= #[trigger] text[i] <= '\u{7f}' by {
        assert('\0' <= as_char(text[i]));
    }
}

/// Returns the character of a text that consists of exactly one ASCII
/// character. Every code this crate decodes is such a text.
pub(crate) fn read_sole_ascii_char(s: &str) -> (r: Option<char>)
    ensures
        r == sole_ascii_char(s@),
{
    match ascii_bytes(s) {
        Some(bytes) => {
            if bytes.len() == 1 {
                Some(char_at(bytes, 0, Ghost(s@)))
            } else {
                None
            }
        },
        None => {
            proof {
                if s@.len() == 1 && s@[0] <= '\u{7f}' {
                    lemma_ascii_by_bound(s@);
                }
            }
            None
        },
    }
}

/// The bytes of `s` when every character of it is ASCII, and `None` otherwise.
pub(crate) fn ascii_bytes<'a>(s: &'a str) -> (r: Option<&'a [u8]>)
    ensures
        r is Some <==> is_ascii_chars(s@),
        r matches Some(bytes) ==> bytes_spell(bytes@, s@),
{
    if s.is_ascii() {
        let bytes = s.as_bytes();
        proof {
            is_ascii_spec_bytes(s);
            is_ascii_chars_nat_bound(s@);
        }
        Some(bytes)
    } else {
        None
    }
}

/// The character at a position of an ASCII text, read from its bytes.
pub(crate) fn char_at(bytes: &[u8], position: usize, Ghost(text): Ghost<Seq<char>>) -> (c: char)
    requires
        bytes_spell(bytes@, text),
        position < bytes.len(),
    ensures
        c == text[position as int],
{
    assert(bytes@[position as int] as int == text[position as int] as int);
    bytes[position] as char
}

/// True for the ten decimal digits.
pub open spec fn is_digit(c: char) -> bool {
    '0' <= c && c <= '9'
}

/// The number that a decimal digit stands for.
pub open spec fn digit_value(c: char) -> nat {
    (c as int - '0' as int) as nat
}

/// True when every character of `text` is a decimal digit.
pub open spec fn all_digits(text: Seq<char>) -> bool {
    forall|i: int| 0 <= i < text.len() ==> is_digit(#[trigger] text[i])
}

/// The number that a text of decimal digits spells; the empty text spells 0.
pub open spec fn decimal_value(digits: Seq<char>) -> nat
    decreases digits.len(),
{
    if digits.len() == 0 {
        0
    } else {
        10 * decimal_value(digits.drop_last()) + digit_value(digits.last())
    }
}

/// The numbers that the digits of `text` stand for, one for one.
pub open spec fn digit_values(text: Seq<char>) -> Seq<u8> {
    Seq::new(text.len(), |i: int| digit_value(text[i]) as u8)
}

/// The position behind the longest run of digits that starts at `from`.
pub open spec fn digits_end(text: Seq<char>, from: int) -> int
    decreases text.len() - from,
{
    if 0 <= from < text.len() && is_digit(text[from]) {
        digits_end(text, from + 1)
    } else {
        from
    }
}

/// A run of digits ends inside the text, holds digits only, and stops at
/// the end of the text or in front of a character that is no digit.
pub proof fn lemma_digits_end(text: Seq<char>, from: int)
    requires
        0 <= from <= text.len(),
    ensures
        from <= digits_end(text, from) <= text.len(),
        all_digits(text.subrange(from, digits_end(text, from))),
        digits_end(text, from) < text.len() ==> !is_digit(text[digits_end(text, from)]),
    decreases text.len() - from,
{
    if from < text.len() && is_digit(text[from]) {
        lemma_digits_end(text, from + 1);
        let end = digits_end(text, from);
        assert forall|i: int| 0 <= i < end - from implies is_digit(
            #[trigger] text.subrange(from, end)[i],
        ) by {
            if i > 0 {
                assert(text.subrange(from, end)[i] == text.subrange(from + 1, end)[i - 1]);
            }
        }
    }
}

/// A run of digits that starts at `from` ends where the run that starts at
/// `to` ends, when everything between the two is a digit.
pub proof fn lemma_digits_end_from(text: Seq<char>, from: int, to: int)
    requires
        0 <= from <= to <= text.len(),
        all_digits(text.subrange(from, to)),
    ensures
        digits_end(text, from) == digits_end(text, to),
    decreases to - from,
{
    if from < to {
        assert(text[from] == text.subrange(from, to)[0]);
        assert forall|i: int| 0 <= i < to - (from + 1) implies is_digit(
            #[trigger] text.subrange(from + 1, to)[i],
        ) by {
            assert(text.subrange(from + 1, to)[i] == text.subrange(from, to)[i + 1]);
        }
        lemma_digits_end_from(text, from + 1, to);
    }
}

/// Digits stay digits when one more digit is read.
pub proof fn lemma_all_digits_step(text: Seq<char>, from: int, to: int)
    requires
        0 <= from <= to < text.len(),
        all_digits(text.subrange(from, to)),
        is_digit(text[to]),
    ensures
        all_digits(text.subrange(from, to + 1)),
{
    let run = text.subrange(from, to + 1);
    assert forall|k: int| 0 <= k < run.len() implies is_digit(#[trigger] run[k]) by {
        if k < run.len() - 1 {
            assert(run[k] == text.subrange(from, to)[k]);
        }
    }
}

/// Reading one more digit multiplies the number read so far by ten and adds
/// the digit.
pub proof fn lemma_decimal_value_step(text: Seq<char>, from: int, to: int)
    requires
        0 <= from <= to < text.len(),
    ensures
        decimal_value(text.subrange(from, to + 1)) == 10 * decimal_value(text.subrange(from, to))
            + digit_value(text[to]),
{
    assert(text.subrange(from, to + 1).drop_last() =~= text.subrange(from, to));
}

/// A number does not get smaller when digits are written behind it.
pub proof fn lemma_decimal_value_grows(digits: Seq<char>, cut: int)
    requires
        0 <= cut <= digits.len(),
    ensures
        decimal_value(digits.subrange(0, cut)) <= decimal_value(digits),
    decreases digits.len(),
{
    if cut < digits.len() {
        lemma_decimal_value_grows(digits.drop_last(), cut);
        assert(digits.drop_last().subrange(0, cut) =~= digits.subrange(0, cut));
    } else {
        assert(digits.subrange(0, cut) =~= digits);
    }
}

/// The number that a character stands for, if it is a decimal digit.
pub(crate) fn digit_of(c: char) -> (r: Option<u8>)
    ensures
        r is Some <==> is_digit(c),
        r matches Some(digit) ==> digit == digit_value(c),
{
    if '0' <= c && c <= '9' {
        Some(c as u8 - '0' as u8)
    } else {
        None
    }
}

/// Reads the run of digits that starts at `from`, writes the number of each
/// behind `digits`, and returns the position behind the run.
pub(crate) fn collect_digits(
    bytes: &[u8],
    from: usize,
    digits: &mut Vec<u8>,
    Ghost(text): Ghost<Seq<char>>,
) -> (end: usize)
    requires
        bytes_spell(bytes@, text),
        from <= bytes.len(),
    ensures
        end == digits_end(text, from as int),
        from <= end <= bytes.len(),
        final(digits)@ == old(digits)@ + digit_values(text.subrange(from as int, end as int)),
{
    let mut i = from;
    while i < bytes.len()
        invariant
            bytes_spell(bytes@, text),
            from <= i <= bytes.len(),
            all_digits(text.subrange(from as int, i as int)),
            digits@ == old(digits)@ + digit_values(text.subrange(from as int, i as int)),
        ensures
            i == bytes.len() || !is_digit(text[i as int]),
        decreases bytes.len() - i,
    {
        match digit_of(char_at(bytes, i, Ghost(text))) {
            Some(digit) => {
                digits.push(digit);
                i = i + 1;
            },
            None => {
                break ;
            },
        }
        proof {
            let run = text.subrange(from as int, i as int);
            let earlier = text.subrange(from as int, i - 1);
            lemma_all_digits_step(text, from as int, i - 1);
            assert(digits@ =~= old(digits)@ + digit_values(run)) by {
                assert forall|k: int| 0 <= k < earlier.len() implies digit_values(run)[k]
                    == digit_values(earlier)[k] by {
                    assert(run[k] == earlier[k]);
                }
            }
        }
    }
    proof {
        lemma_digits_end_from(text, from as int, i as int);
    }
    i
}

} // verus!
