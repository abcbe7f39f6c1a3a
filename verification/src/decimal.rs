//! Decimal numbers as sentences write them.
//!
//! A decimal field is kept exactly as it was written: a sign, the decimal
//! digits and a power of ten. Nothing is rounded, so every consumer can
//! round to the precision it needs.

use vstd::prelude::*;
use vstd::utf8::is_ascii_chars;
use crate::text::{
    all_digits,
    ascii_bytes,
    bytes_spell,
    char_at,
    collect_digits,
    decimal_value,
    digit_of,
    digit_values,
    digits_end,
    is_digit,
    lemma_all_digits_step,
    lemma_ascii_by_bound,
    lemma_decimal_value_step,
    lemma_digits_end,
    lemma_digits_end_from,
};

verus! {

/// A decimal number read from a field.
#[derive(Debug, PartialEq, Eq)]
pub enum Decimal {
    /// The number `digits * 10^exponent`, negated if `negative`. `digits`
    /// holds the decimal digits as written, the most significant first, each
    /// from 0 to 9.
    Finite { negative: bool, digits: Vec<u8>, exponent: i64 },
    /// Infinity, with its sign.
    Infinite { negative: bool },
    /// Not a number, with the sign it was written with.
    Nan { negative: bool },
}

/// The mathematical content of a `Decimal`.
pub enum DecimalModel {
    Finite { negative: bool, digits: Seq<u8>, exponent: int },
    Infinite { negative: bool },
    Nan { negative: bool },
}

impl View for Decimal {
    type V = DecimalModel;

    open spec fn view(&self) -> DecimalModel {
        match *self {
            Decimal::Finite { negative, digits, exponent } => DecimalModel::Finite {
                negative,
                digits: digits@,
                exponent: exponent as int,
            },
            Decimal::Infinite { negative } => DecimalModel::Infinite { negative },
            Decimal::Nan { negative } => DecimalModel::Nan { negative },
        }
    }
}

impl Clone for Decimal {
    fn clone(&self) -> (r: Decimal)
        ensures
            r@ == self@,
    {
        match self {
            Decimal::Finite { negative, digits, exponent } => {
                let digits = digits.clone();
                Decimal::Finite { negative: *negative, digits, exponent: *exponent }
            },
            Decimal::Infinite { negative } => Decimal::Infinite { negative: *negative },
            Decimal::Nan { negative } => Decimal::Nan { negative: *negative },
        }
    }
}

impl DecimalModel {
    /// True when every digit of a finite number is at most 9.
    pub open spec fn well_formed(self) -> bool {
        match self {
            DecimalModel::Finite { digits, .. } => forall|i: int|
                0 <= i < digits.len() ==> #[trigger] digits[i] <= 9,
            _ => true,
        }
    }
}

/// The whole number that a sequence of digits spells, the most significant
/// digit first.
pub open spec fn digits_number(digits: Seq<u8>) -> nat
    decreases digits.len(),
{
    if digits.len() == 0 {
        0
    } else {
        10 * digits_number(digits.drop_last()) + digits.last() as nat
    }
}

/// `x`, or the nearest bound of the 64-bit signed integers if it is outside.
pub open spec fn clamp_i64(x: int) -> int {
    if x < i64::MIN {
        i64::MIN as int
    } else if x > i64::MAX {
        i64::MAX as int
    } else {
        x
    }
}

/// The number of characters that the sign of a text takes: 1 or 0.
pub open spec fn sign_len(text: Seq<char>, from: int) -> int {
    if from < text.len() && (text[from] == '+' || text[from] == '-') {
        1
    } else {
        0
    }
}

/// True when the text has a minus sign at `from`.
pub open spec fn minus_at(text: Seq<char>, from: int) -> bool {
    from < text.len() && text[from] == '-'
}

/// True when `c` is the lower-case letter `letter` or its capital.
pub open spec fn same_letter(c: char, letter: char) -> bool {
    c == letter || c as int == letter as int - 32
}

/// True when `body` is `inf` or `infinity`, in any mix of cases.
pub open spec fn spells_infinity(body: Seq<char>) -> bool {
    &&& body.len() == 3 || body.len() == 8
    &&& same_letter(body[0], 'i')
    &&& same_letter(body[1], 'n')
    &&& same_letter(body[2], 'f')
    &&& body.len() == 8 ==> {
        &&& same_letter(body[3], 'i')
        &&& same_letter(body[4], 'n')
        &&& same_letter(body[5], 'i')
        &&& same_letter(body[6], 't')
        &&& same_letter(body[7], 'y')
    }
}

/// True when `body` is `nan`, in any mix of cases.
pub open spec fn spells_nan(body: Seq<char>) -> bool {
    &&& body.len() == 3
    &&& same_letter(body[0], 'n')
    &&& same_letter(body[1], 'a')
    &&& same_letter(body[2], 'n')
}

/// The exponent written from `from` to the end of the text: an optional
/// sign, then one or more digits.
pub open spec fn exponent_at(text: Seq<char>, from: int) -> Option<int> {
    let start = from + sign_len(text, from);
    let digits = text.subrange(start, text.len() as int);
    if start < text.len() && all_digits(digits) {
        if minus_at(text, from) {
            Some(-(decimal_value(digits) as int))
        } else {
            Some(decimal_value(digits) as int)
        }
    } else {
        None
    }
}

/// The number written from `from` to the end of the text: digits with at
/// most one decimal point among them and at least one digit in all, then
/// optionally `e` or `E` and an exponent. The exponent of the result counts
/// from the last digit, and is clamped to the 64-bit signed integers.
pub open spec fn number_at(text: Seq<char>, from: int, negative: bool) -> Option<DecimalModel> {
    let point = digits_end(text, from);
    let fraction = if point < text.len() && text[point] == '.' {
        point + 1
    } else {
        point
    };
    let end = digits_end(text, fraction);
    let digits = digit_values(text.subrange(from, point)) + digit_values(
        text.subrange(fraction, end),
    );
    let scale = end - fraction;
    if digits.len() == 0 {
        None
    } else if end == text.len() {
        Some(DecimalModel::Finite { negative, digits, exponent: clamp_i64(-scale) })
    } else if text[end] == 'e' || text[end] == 'E' {
        match exponent_at(text, end + 1) {
            Some(e) => Some(DecimalModel::Finite { negative, digits, exponent: clamp_i64(e - scale) }),
            None => None,
        }
    } else {
        None
    }
}

/// The decimal number that a text spells: an optional sign, then a number, or
/// one of the words `inf`, `infinity` and `nan`.
pub open spec fn decimal_of_text(text: Seq<char>) -> Option<DecimalModel> {
    let from = sign_len(text, 0);
    let negative = minus_at(text, 0);
    let body = text.subrange(from, text.len() as int);
    if spells_infinity(body) {
        Some(DecimalModel::Infinite { negative })
    } else if spells_nan(body) {
        Some(DecimalModel::Nan { negative })
    } else {
        number_at(text, from, negative)
    }
}

/// A text that spells a decimal number is ASCII.
pub proof fn lemma_decimal_text_is_ascii(text: Seq<char>)
    requires
        decimal_of_text(text) is Some,
    ensures
        is_ascii_chars(text),
{
    let len = text.len() as int;
    let from = sign_len(text, 0);
    let body = text.subrange(from, len);
    assert forall|i: int| 0 <= i < len implies #[trigger] text[i] <= '\u{7f}' by {
        if i < from {
        } else if spells_infinity(body) || spells_nan(body) {
            assert(text[i] == body[i - from]);
        } else {
            let point = digits_end(text, from);
            lemma_digits_end(text, from);
            let fraction = if point < len && text[point] == '.' {
                point + 1
            } else {
                point
            };
            let end = digits_end(text, fraction);
            lemma_digits_end(text, fraction);
            if i < point {
                assert(is_digit(text.subrange(from, point)[i - from]));
            } else if i < fraction {
            } else if i < end {
                assert(is_digit(text.subrange(fraction, end)[i - fraction]));
            } else if i == end {
            } else {
                let start = end + 1 + sign_len(text, end + 1);
                if i >= start {
                    assert(is_digit(text.subrange(start, len)[i - start]));
                }
            }
        }
    }
    lemma_ascii_by_bound(text);
}

/// Every digit of a decimal number that a text spells is at most 9.
pub proof fn lemma_decimal_of_text_well_formed(text: Seq<char>)
    ensures
        decimal_of_text(text) matches Some(d) ==> d.well_formed(),
{
    let from = sign_len(text, 0);
    if let Some(DecimalModel::Finite { digits, .. }) = decimal_of_text(text) {
        let point = digits_end(text, from);
        lemma_digits_end(text, from);
        let fraction = if point < text.len() && text[point] == '.' {
            point + 1
        } else {
            point
        };
        let end = digits_end(text, fraction);
        lemma_digits_end(text, fraction);
        let whole = text.subrange(from, point);
        let part = text.subrange(fraction, end);
        assert forall|i: int| 0 <= i < digits.len() implies #[trigger] digits[i] <= 9 by {
            if i < whole.len() {
                assert(is_digit(whole[i]));
            } else {
                assert(is_digit(part[i - whole.len()]));
            }
        }
    }
}

/// The digits of a text spell, as numbers, the number that the text spells.
pub proof fn lemma_digits_number(text: Seq<char>)
    requires
        all_digits(text),
    ensures
        digits_number(digit_values(text)) == decimal_value(text),
    decreases text.len(),
{
    if text.len() > 0 {
        let front = text.drop_last();
        assert forall|i: int| 0 <= i < front.len() implies is_digit(#[trigger] front[i]) by {
            assert(front[i] == text[i]);
        }
        lemma_digits_number(front);
        assert(digit_values(text).drop_last() =~= digit_values(front));
        assert(is_digit(text[text.len() - 1]));
    }
}

/// True for the three ways to write the sign of a number: not at all, as
/// `+` and as `-`.
pub open spec fn is_sign(sign: Seq<char>) -> bool {
    sign.len() == 0 || sign == seq!['+'] || sign == seq!['-']
}

/// A sign and a run of digits spell a whole number: the digits as they
/// stand, with the exponent 0.
pub proof fn lemma_whole_number(sign: Seq<char>, whole: Seq<char>)
    requires
        is_sign(sign),
        all_digits(whole),
        whole.len() > 0,
    ensures
        decimal_of_text(sign + whole) == Some(
            DecimalModel::Finite {
                negative: sign == seq!['-'],
                digits: digit_values(whole),
                exponent: 0,
            },
        ),
{
    let text = sign + whole;
    let from = sign.len() as int;
    let len = text.len() as int;
    assert(text[from] == whole[0] && is_digit(whole[0]));
    assert(text.subrange(from, len) =~= whole);
    assert(text.subrange(from, len)[0] == whole[0]);
    lemma_digits_end_from(text, from, len);
    assert(text.subrange(len, len) =~= Seq::<char>::empty());
    assert(digit_values(whole) + digit_values(Seq::<char>::empty()) =~= digit_values(whole));
}

/// A sign, a run of digits, a point and another run of digits, with at
/// least one digit in all, spell the digits of both runs as they stand,
/// with an exponent that counts the digits behind the point.
pub proof fn lemma_plain_decimal(sign: Seq<char>, whole: Seq<char>, fraction: Seq<char>)
    requires
        is_sign(sign),
        all_digits(whole),
        all_digits(fraction),
        whole.len() + fraction.len() > 0,
    ensures
        decimal_of_text(sign + whole + seq!['.'] + fraction) == Some(
            DecimalModel::Finite {
                negative: sign == seq!['-'],
                digits: digit_values(whole + fraction),
                exponent: clamp_i64(-(fraction.len() as int)),
            },
        ),
{
    let text = sign + whole + seq!['.'] + fraction;
    let from = sign.len() as int;
    let point = from + whole.len();
    let len = text.len() as int;
    assert(text[point] == '.');
    if whole.len() > 0 {
        assert(text[from] == whole[0] && is_digit(whole[0]));
    }
    let body = text.subrange(from, len);
    assert(body[0] == text[from]);
    assert(text.subrange(from, point) =~= whole);
    assert(text.subrange(point + 1, len) =~= fraction);
    lemma_digits_end_from(text, from, point);
    lemma_digits_end_from(text, point + 1, len);
    assert(digit_values(whole) + digit_values(fraction) =~= digit_values(whole + fraction));
}

/// The largest size of an exponent that is read exactly. It is so far
/// outside the 64-bit integers that the count of fraction digits cannot
/// bring a larger exponent back into them.
const EXPONENT_LIMIT: u128 = 0x1_0000_0000_0000_0000_0000;

/// `x`, or the nearest of `-EXPONENT_LIMIT` and `EXPONENT_LIMIT` if it is
/// outside.
spec fn clamp_exponent(x: int) -> int {
    if x < -(EXPONENT_LIMIT as int) {
        -(EXPONENT_LIMIT as int)
    } else if x > EXPONENT_LIMIT as int {
        EXPONENT_LIMIT as int
    } else {
        x
    }
}

/// True when the character at `from + offset` is the lower-case letter
/// `letter` or its capital.
fn letter_at(
    bytes: &[u8],
    from: usize,
    offset: usize,
    letter: char,
    Ghost(text): Ghost<Seq<char>>,
) -> (r: bool)
    requires
        bytes_spell(bytes@, text),
        from + offset < bytes.len(),
    ensures
        r == same_letter(text.subrange(from as int, text.len() as int)[offset as int], letter),
{
    let c = char_at(bytes, from + offset, Ghost(text));
    c == letter || c as u32 + 32 == letter as u32
}

/// Reads one of the words `inf`, `infinity` and `nan` from `from` to the
/// end of the text.
fn read_word(bytes: &[u8], from: usize, negative: bool, Ghost(text): Ghost<Seq<char>>) -> (r:
    Option<Decimal>)
    requires
        bytes_spell(bytes@, text),
        from <= bytes.len(),
    ensures
        ({
            let body = text.subrange(from as int, text.len() as int);
            if spells_infinity(body) {
                r matches Some(d) && d@ == (DecimalModel::Infinite { negative })
            } else if spells_nan(body) {
                r matches Some(d) && d@ == (DecimalModel::Nan { negative })
            } else {
                r is None
            }
        }),
{
    let count = bytes.len() - from;
    if count == 3 {
        if letter_at(bytes, from, 0, 'i', Ghost(text)) && letter_at(bytes, from, 1, 'n', Ghost(text))
            && letter_at(bytes, from, 2, 'f', Ghost(text)) {
            Some(Decimal::Infinite { negative })
        } else if letter_at(bytes, from, 0, 'n', Ghost(text)) && letter_at(
            bytes,
            from,
            1,
            'a',
            Ghost(text),
        ) && letter_at(bytes, from, 2, 'n', Ghost(text)) {
            Some(Decimal::Nan { negative })
        } else {
            None
        }
    } else if count == 8 {
        if letter_at(bytes, from, 0, 'i', Ghost(text)) && letter_at(bytes, from, 1, 'n', Ghost(text))
            && letter_at(bytes, from, 2, 'f', Ghost(text)) && letter_at(
            bytes,
            from,
            3,
            'i',
            Ghost(text),
        ) && letter_at(bytes, from, 4, 'n', Ghost(text)) && letter_at(
            bytes,
            from,
            5,
            'i',
            Ghost(text),
        ) && letter_at(bytes, from, 6, 't', Ghost(text)) && letter_at(
            bytes,
            from,
            7,
            'y',
            Ghost(text),
        ) {
            Some(Decimal::Infinite { negative })
        } else {
            None
        }
    } else {
        None
    }
}

/// True when the character at `position` is `+` or `-`.
fn sign_at(bytes: &[u8], position: usize, Ghost(text): Ghost<Seq<char>>) -> (r: (bool, bool))
    requires
        bytes_spell(bytes@, text),
        position <= bytes.len(),
    ensures
        r.0 == (sign_len(text, position as int) == 1),
        r.1 == minus_at(text, position as int),
{
    if position < bytes.len() {
        let c = char_at(bytes, position, Ghost(text));
        (c == '+' || c == '-', c == '-')
    } else {
        (false, false)
    }
}

/// Reads the exponent written from `from` to the end of the text. An
/// exponent beyond `EXPONENT_LIMIT` is returned as the limit.
fn read_exponent(bytes: &[u8], from: usize, Ghost(text): Ghost<Seq<char>>) -> (r: Option<i128>)
    requires
        bytes_spell(bytes@, text),
        from <= bytes.len(),
    ensures
        match exponent_at(text, from as int) {
            Some(e) => r matches Some(v) && v == clamp_exponent(e),
            None => r is None,
        },
{
    let len = bytes.len();
    let (signed, minus) = sign_at(bytes, from, Ghost(text));
    let start: usize = if signed {
        from + 1
    } else {
        from
    };
    if start == len {
        return None;
    }
    let ghost digits = text.subrange(start as int, len as int);
    let mut size: u128 = 0;
    let mut i = start;
    while i < len
        invariant
            bytes_spell(bytes@, text),
            len == bytes.len(),
            digits == text.subrange(start as int, len as int),
            start == from + sign_len(text, from as int),
            start < len,
            start <= i <= len,
            all_digits(text.subrange(start as int, i as int)),
            size == clamp_exponent(decimal_value(text.subrange(start as int, i as int)) as int),
        decreases len - i,
    {
        let digit = match digit_of(char_at(bytes, i, Ghost(text))) {
            Some(digit) => digit,
            None => {
                assert(!is_digit(digits[i - start]));
                return None;
            },
        };
        proof {
            lemma_decimal_value_step(text, start as int, i as int);
        }
        let next = size * 10 + digit as u128;
        size = if next > EXPONENT_LIMIT {
            EXPONENT_LIMIT
        } else {
            next
        };
        i = i + 1;
        proof {
            lemma_all_digits_step(text, start as int, i - 1);
        }
    }
    assert(text.subrange(start as int, i as int) =~= digits);
    if minus {
        Some(-(size as i128))
    } else {
        Some(size as i128)
    }
}

/// Reads the number written from `from` to the end of the text.
fn read_number(bytes: &[u8], from: usize, negative: bool, Ghost(text): Ghost<Seq<char>>) -> (r:
    Option<Decimal>)
    requires
        bytes_spell(bytes@, text),
        from <= bytes.len(),
    ensures
        match r {
            Some(d) => number_at(text, from as int, negative) == Some(d@),
            None => number_at(text, from as int, negative) is None,
        },
{
    let len = bytes.len();
    let mut digits: Vec<u8> = Vec::new();
    let point = collect_digits(bytes, from, &mut digits, Ghost(text));
    let fraction: usize = if point < len && char_at(bytes, point, Ghost(text)) == '.' {
        point + 1
    } else {
        point
    };
    let end = collect_digits(bytes, fraction, &mut digits, Ghost(text));
    if digits.len() == 0 {
        return None;
    }
    let scale = end - fraction;
    let written: i128 = if end == len {
        0
    } else {
        let mark = char_at(bytes, end, Ghost(text));
        if mark == 'e' || mark == 'E' {
            match read_exponent(bytes, end + 1, Ghost(text)) {
                Some(e) => e,
                None => { return None; },
            }
        } else {
            return None;
        }
    };
    let total: i128 = written - scale as i128;
    let exponent: i64 = if total > i64::MAX as i128 {
        i64::MAX
    } else if total < i64::MIN as i128 {
        i64::MIN
    } else {
        total as i64
    };
    Some(Decimal::Finite { negative, digits, exponent })
}

/// Reads a text as a decimal number.
pub fn read_decimal(s: &str) -> (r: Option<Decimal>)
    ensures
        match r {
            Some(d) => decimal_of_text(s@) == Some(d@) && d@.well_formed(),
            None => decimal_of_text(s@) is None,
        },
{
    proof {
        lemma_decimal_of_text_well_formed(s@);
    }
    let bytes = match ascii_bytes(s) {
        Some(bytes) => bytes,
        None => {
            proof {
                if decimal_of_text(s@) is Some {
                    lemma_decimal_text_is_ascii(s@);
                }
            }
            return None;
        },
    };
    let (signed, negative) = sign_at(bytes, 0, Ghost(s@));
    let from: usize = if signed {
        1
    } else {
        0
    };
    match read_word(bytes, from, negative, Ghost(s@)) {
        Some(d) => Some(d),
        None => read_number(bytes, from, negative, Ghost(s@)),
    }
}

} // verus!
