//! Time of day as sentences write it.

use vstd::prelude::*;
use vstd::utf8::is_ascii_chars;
use crate::fields::{field_text, is_blank};
use crate::text::{
    all_digits,
    ascii_bytes,
    bytes_spell,
    char_at,
    decimal_value,
    digit_of,
    digit_value,
    is_digit,
    lemma_all_digits_step,
    lemma_ascii_by_bound,
    lemma_decimal_value_step,
};

verus! {

/// A time of day, to the nanosecond. No date is implied.
#[derive(Debug, PartialEq, Eq, Structural, Clone, Copy)]
pub struct Time {
    /// Hours, from 0 to 23.
    pub hours: u8,
    /// Minutes, from 0 to 59.
    pub minutes: u8,
    /// Whole seconds, from 0 to 59.
    pub seconds: u8,
    /// The fraction of a second, in nanoseconds.
    pub nanos: u32,
}

/// Ten to the power of `places`.
spec fn pow10(places: nat) -> nat
    decreases places,
{
    if places == 0 {
        1
    } else {
        10 * pow10((places - 1) as nat)
    }
}

/// True when the text has the form `hhmmss` or `hhmmss.sss`: six digits,
/// then nothing, or a decimal point and any number of digits.
pub open spec fn has_time_form(text: Seq<char>) -> bool {
    &&& text.len() >= 6
    &&& all_digits(text.subrange(0, 6))
    &&& text.len() > 6 ==> text[6] == '.' && all_digits(text.subrange(7, text.len() as int))
}

/// The digits behind the decimal point of a text in time form.
pub open spec fn fraction_digits(text: Seq<char>) -> Seq<char> {
    if text.len() > 6 {
        text.subrange(7, text.len() as int)
    } else {
        Seq::empty()
    }
}

/// The first nine digits of a fraction, with `0` for each that is missing.
pub open spec fn nine_digits(fraction: Seq<char>) -> Seq<char> {
    Seq::new(
        9,
        |i: int|
            if i < fraction.len() {
                fraction[i]
            } else {
                '0'
            },
    )
}

/// The nanoseconds that the digits of a fraction of a second stand for.
/// Digits behind the ninth stand for less than a nanosecond and are dropped.
pub open spec fn fraction_nanos(fraction: Seq<char>) -> nat {
    decimal_value(nine_digits(fraction))
}

impl Time {
    /// True for a time of day: hours below 24, minutes and seconds below
    /// 60, and less than a second of nanoseconds.
    pub open spec fn well_formed(self) -> bool {
        &&& self.hours < 24
        &&& self.minutes < 60
        &&& self.seconds < 60
        &&& self.nanos < 1_000_000_000
    }

    /// The time that a text spells. A text that is not in time form is an
    /// error, and so are, in this order, hours, minutes and seconds out of
    /// range.
    pub open spec fn of_text(text: Seq<char>) -> Result<Time, &'static str> {
        let hours = decimal_value(text.subrange(0, 2));
        let minutes = decimal_value(text.subrange(2, 4));
        let seconds = decimal_value(text.subrange(4, 6));
        if !has_time_form(text) {
            Err("Time should be written as hhmmss or hhmmss.sss!")
        } else if hours > 23 {
            Err("Hours should be from 00 to 23!")
        } else if minutes > 59 {
            Err("Minutes should be from 00 to 59!")
        } else if seconds > 59 {
            Err("Seconds should be from 00 to 59!")
        } else {
            Ok(
                Time {
                    hours: hours as u8,
                    minutes: minutes as u8,
                    seconds: seconds as u8,
                    nanos: fraction_nanos(fraction_digits(text)) as u32,
                },
            )
        }
    }

    /// What `parse_from_hhmmss` gives for a field.
    pub open spec fn spec_parse_from_hhmmss(field: Option<Seq<char>>) -> Result<
        Option<Time>,
        &'static str,
    > {
        match field {
            Some(text) => if text.len() == 0 {
                Ok(None)
            } else {
                match Time::of_text(text) {
                    Ok(time) => Ok(Some(time)),
                    Err(e) => Err(e),
                }
            },
            None => Ok(None),
        }
    }

    /// Reads a text as a time of day.
    pub fn read(s: &str) -> (r: Result<Time, &'static str>)
        ensures
            r == Time::of_text(s@),
            r matches Ok(time) ==> time.well_formed(),
    {
        let ghost text = s@;
        proof {
            lemma_time_of_text_well_formed(text);
        }
        let bytes = match ascii_bytes(s) {
            Some(bytes) => bytes,
            None => {
                proof {
                    if has_time_form(text) {
                        lemma_time_form_is_ascii(text);
                    }
                }
                return Err("Time should be written as hhmmss or hhmmss.sss!");
            },
        };
        let len = bytes.len();
        if len < 6 {
            return Err("Time should be written as hhmmss or hhmmss.sss!");
        }
        proof {
            lemma_six_digits(text);
        }
        let hours = match two_digits(bytes, 0, Ghost(text)) {
            Some(hours) => hours,
            None => { return Err("Time should be written as hhmmss or hhmmss.sss!"); },
        };
        let minutes = match two_digits(bytes, 2, Ghost(text)) {
            Some(minutes) => minutes,
            None => { return Err("Time should be written as hhmmss or hhmmss.sss!"); },
        };
        let seconds = match two_digits(bytes, 4, Ghost(text)) {
            Some(seconds) => seconds,
            None => { return Err("Time should be written as hhmmss or hhmmss.sss!"); },
        };
        let nanos = if len > 6 {
            if char_at(bytes, 6, Ghost(text)) != '.' {
                return Err("Time should be written as hhmmss or hhmmss.sss!");
            }
            match read_nanos(bytes, Ghost(text)) {
                Some(nanos) => nanos,
                None => { return Err("Time should be written as hhmmss or hhmmss.sss!"); },
            }
        } else {
            proof {
                lemma_no_fraction();
            }
            0
        };
        if hours > 23 {
            Err("Hours should be from 00 to 23!")
        } else if minutes > 59 {
            Err("Minutes should be from 00 to 59!")
        } else if seconds > 59 {
            Err("Seconds should be from 00 to 59!")
        } else {
            Ok(Time { hours, minutes, seconds, nanos })
        }
    }

    /// Reads a field as a time of day. A blank field gives `Ok(None)`.
    pub fn parse_from_hhmmss(input: Option<&str>) -> (r: Result<Option<Time>, &'static str>)
        ensures
            r == Time::spec_parse_from_hhmmss(field_text(input)),
            r matches Ok(Some(time)) ==> time.well_formed(),
    {
        match input {
            Some(s) => {
                if s.is_empty() {
                    Ok(None)
                } else {
                    match Time::read(s) {
                        Ok(time) => Ok(Some(time)),
                        Err(e) => Err(e),
                    }
                }
            },
            None => Ok(None),
        }
    }
}

/// Reads the number that the two digits at `at` spell.
fn two_digits(bytes: &[u8], at: usize, Ghost(text): Ghost<Seq<char>>) -> (r: Option<u8>)
    requires
        bytes_spell(bytes@, text),
        at + 2 <= bytes.len(),
    ensures
        r is Some <==> is_digit(text[at as int]) && is_digit(text[at + 1]),
        r matches Some(number) ==> number == decimal_value(text.subrange(at as int, at + 2)),
{
    proof {
        lemma_two_digits(text, at as int);
    }
    match (digit_of(char_at(bytes, at, Ghost(text))), digit_of(char_at(bytes, at + 1, Ghost(text)))) {
        (Some(tens), Some(ones)) => Some(tens * 10 + ones),
        _ => None,
    }
}

/// Reads the digits behind the decimal point as nanoseconds. The text has
/// its decimal point at position 6.
fn read_nanos(bytes: &[u8], Ghost(text): Ghost<Seq<char>>) -> (r: Option<u32>)
    requires
        bytes_spell(bytes@, text),
        bytes.len() > 6,
    ensures
        r is Some <==> all_digits(text.subrange(7, text.len() as int)),
        r matches Some(nanos) ==> nanos == fraction_nanos(fraction_digits(text)),
{
    let len = bytes.len();
    let ghost fraction = fraction_digits(text);
    let ghost nine = nine_digits(fraction);
    let mut nanos: u32 = 0;
    let mut places: usize = 0;
    let mut i: usize = 7;
    while i < len
        invariant
            bytes_spell(bytes@, text),
            len == bytes.len(),
            fraction == text.subrange(7, len as int),
            nine == nine_digits(fraction),
            7 <= i <= len,
            all_digits(text.subrange(7, i as int)),
            places <= 9,
            places <= i - 7,
            places < 9 ==> places == i - 7,
            nanos == decimal_value(nine.subrange(0, places as int)),
            nanos < pow10(places as nat),
        decreases len - i,
    {
        let digit = match digit_of(char_at(bytes, i, Ghost(text))) {
            Some(digit) => digit,
            None => {
                assert(!is_digit(fraction[i - 7]));
                return None;
            },
        };
        if places < 9 {
            proof {
                lemma_decimal_value_step(nine, 0, places as int);
                lemma_pow10_bound(places as nat);
                assert(nine[places as int] == text[i as int]);
            }
            nanos = nanos * 10 + digit as u32;
            places = places + 1;
        }
        i = i + 1;
        proof {
            lemma_all_digits_step(text, 7, i - 1);
        }
    }
    assert(text.subrange(7, i as int) =~= fraction);
    while places < 9
        invariant
            nine == nine_digits(fraction),
            places <= 9,
            places < 9 ==> fraction.len() <= places,
            nanos == decimal_value(nine.subrange(0, places as int)),
            nanos < pow10(places as nat),
        decreases 9 - places,
    {
        proof {
            lemma_decimal_value_step(nine, 0, places as int);
            lemma_pow10_bound(places as nat);
        }
        nanos = nanos * 10;
        places = places + 1;
    }
    assert(nine.subrange(0, 9) =~= nine);
    Some(nanos)
}

/// Six digits are six digits, pair by pair.
proof fn lemma_six_digits(text: Seq<char>)
    requires
        text.len() >= 6,
    ensures
        all_digits(text.subrange(0, 6)) <==> is_digit(text[0]) && is_digit(text[1]) && is_digit(
            text[2],
        ) && is_digit(text[3]) && is_digit(text[4]) && is_digit(text[5]),
{
    let head = text.subrange(0, 6);
    assert(head[0] == text[0] && head[1] == text[1] && head[2] == text[2] && head[3] == text[3]
        && head[4] == text[4] && head[5] == text[5]);
}

/// A time without a fraction has no nanoseconds.
proof fn lemma_no_fraction()
    ensures
        fraction_nanos(Seq::<char>::empty()) == 0,
{
    let nine = nine_digits(Seq::<char>::empty());
    assert(all_digits(nine));
    lemma_zeros_spell_zero(nine, 9);
    assert(nine.subrange(0, 9) =~= nine);
}

/// A run of zeros spells 0.
proof fn lemma_zeros_spell_zero(digits: Seq<char>, count: int)
    requires
        0 <= count <= digits.len(),
        forall|i: int| 0 <= i < digits.len() ==> digits[i] == '0',
    ensures
        decimal_value(digits.subrange(0, count)) == 0,
    decreases count,
{
    if count > 0 {
        lemma_zeros_spell_zero(digits, count - 1);
        lemma_decimal_value_step(digits, 0, count - 1);
    } else {
        assert(decimal_value(digits.subrange(0, 0)) == 0);
    }
}

/// A power of ten up to the ninth is at most a thousand million, and the
/// next is ten times as large.
proof fn lemma_pow10_bound(places: nat)
    requires
        places < 9,
    ensures
        pow10(places + 1) == 10 * pow10(places),
        pow10(places + 1) <= 1_000_000_000,
{
    reveal_with_fuel(pow10, 10);
}

/// Two digits spell ten times the first plus the second.
proof fn lemma_two_digits(text: Seq<char>, at: int)
    requires
        0 <= at,
        at + 2 <= text.len(),
    ensures
        decimal_value(text.subrange(at, at + 2)) == 10 * digit_value(text[at]) + digit_value(
            text[at + 1],
        ),
{
    lemma_decimal_value_step(text, at, at + 1);
    lemma_decimal_value_step(text, at, at);
    assert(decimal_value(text.subrange(at, at)) == 0);
}

/// A text in time form is ASCII.
proof fn lemma_time_form_is_ascii(text: Seq<char>)
    requires
        has_time_form(text),
    ensures
        is_ascii_chars(text),
{
    assert forall|i: int| 0 <= i < text.len() implies #[trigger] text[i] <= '\u{7f}' by {
        if i < 6 {
            assert(is_digit(text.subrange(0, 6)[i]));
        } else if i > 6 {
            assert(is_digit(text.subrange(7, text.len() as int)[i - 7]));
        }
    }
    lemma_ascii_by_bound(text);
}

/// Every time that a text spells is a time of day.
pub proof fn lemma_time_of_text_well_formed(text: Seq<char>)
    ensures
        Time::of_text(text) matches Ok(time) ==> time.well_formed(),
{
    if Time::of_text(text) is Ok {
        lemma_digits_below_power(nine_digits(fraction_digits(text)), 9);
        assert(nine_digits(fraction_digits(text)).subrange(0, 9) =~= nine_digits(
            fraction_digits(text),
        ));
        reveal_with_fuel(pow10, 10);
    }
}

/// A run of `count` digits spells a number below the `count`-th power of ten.
proof fn lemma_digits_below_power(digits: Seq<char>, count: int)
    requires
        0 <= count <= digits.len(),
        all_digits(digits),
    ensures
        decimal_value(digits.subrange(0, count)) < pow10(count as nat),
    decreases count,
{
    if count > 0 {
        lemma_digits_below_power(digits, count - 1);
        lemma_decimal_value_step(digits, 0, count - 1);
        assert(is_digit(digits[count - 1]));
    } else {
        assert(decimal_value(digits.subrange(0, 0)) == 0);
    }
}

/// A time field reads as `None` exactly when it is blank, and as what its
/// text spells otherwise.
pub proof fn lemma_time_field_coercion(field: Option<Seq<char>>)
    ensures
        Time::spec_parse_from_hhmmss(field) == Ok::<Option<Time>, &'static str>(None) <==> is_blank(
            field,
        ),
        !is_blank(field) ==> match Time::of_text(field->0) {
            Ok(time) => Time::spec_parse_from_hhmmss(field) == Ok::<Option<Time>, &'static str>(
                Some(time),
            ),
            Err(e) => Time::spec_parse_from_hhmmss(field) == Err::<Option<Time>, &'static str>(e),
        },
{
}

} // verus!
