//! Coercion of one field into a number.
//!
//! A field that is absent or empty is a valid blank and gives `Ok(None)`.
//! Any other field has to spell a value of the type asked for; one that does
//! not is malformed and gives an error.

use vstd::prelude::*;
use vstd::utf8::is_ascii_chars;
use crate::decimal::{decimal_of_text, read_decimal, Decimal, DecimalModel};
use crate::fields::{field_text, is_blank};
use crate::text::{
    all_digits,
    ascii_bytes,
    bytes_spell,
    char_at,
    decimal_value,
    digit_of,
    is_digit,
    lemma_all_digits_step,
    lemma_decimal_value_grows,
    lemma_decimal_value_step,
};

verus! {

/// The rule shared by every numeric field: a blank field is `Ok(None)`; a
/// field with a text is `Ok(Some(..))` if the text spells a value, and the
/// error otherwise. `value` is what the text of the field spells.
pub open spec fn coerced<T>(field: Option<Seq<char>>, value: Option<T>, error: &'static str)
    -> Result<Option<T>, &'static str> {
    if is_blank(field) {
        Ok(None)
    } else {
        match value {
            Some(v) => Ok(Some(v)),
            None => Err(error),
        }
    }
}

/// The digits of an unsigned number: its text without a leading `+`.
pub open spec fn unsigned_digits(text: Seq<char>) -> Seq<char> {
    if text.len() > 0 && text[0] == '+' {
        text.drop_first()
    } else {
        text
    }
}

/// The number below 256 that a text spells: an optional `+`, then one or
/// more decimal digits. Leading zeros are allowed.
pub open spec fn u8_of_text(text: Seq<char>) -> Option<u8> {
    let digits = unsigned_digits(text);
    if digits.len() > 0 && all_digits(digits) && decimal_value(digits) <= u8::MAX {
        Some(decimal_value(digits) as u8)
    } else {
        None
    }
}

/// What `parse_u8` gives for a field.
pub open spec fn spec_parse_u8(field: Option<Seq<char>>) -> Result<Option<u8>, &'static str> {
    match field {
        Some(text) => coerced(field, u8_of_text(text), "Wrong unsigned 8-bit number!"),
        None => Ok(None),
    }
}

/// A text that spells a number is ASCII.
proof fn lemma_u8_text_is_ascii(text: Seq<char>)
    requires
        u8_of_text(text) is Some,
    ensures
        is_ascii_chars(text),
{
    let digits = unsigned_digits(text);
    assert forall|i: int| 0 <= i < text.len() implies #[trigger] text[i] <= '\u{7f}' by {
        if digits.len() == text.len() {
            assert(is_digit(digits[i]));
        } else if i > 0 {
            assert(is_digit(digits[i - 1]));
        }
    }
    crate::text::lemma_ascii_by_bound(text);
}

/// Reads a text as a number from 0 to 255.
pub fn read_u8(s: &str) -> (r: Option<u8>)
    ensures
        r == u8_of_text(s@),
{
    let bytes = match ascii_bytes(s) {
        Some(bytes) => bytes,
        None => {
            proof {
                if u8_of_text(s@) is Some {
                    lemma_u8_text_is_ascii(s@);
                }
            }
            return None;
        },
    };
    let ghost text = s@;
    let ghost digits = unsigned_digits(text);
    if bytes.len() == 0 {
        return None;
    }
    let start: usize = if char_at(bytes, 0, Ghost(text)) == '+' {
        1
    } else {
        0
    };
    assert(digits =~= text.subrange(start as int, text.len() as int));
    if start == bytes.len() {
        return None;
    }
    let mut number: u16 = 0;
    let mut i = start;
    while i < bytes.len()
        invariant
            text == s@,
            bytes_spell(bytes@, text),
            digits == unsigned_digits(text),
            digits == text.subrange(start as int, text.len() as int),
            start <= i <= bytes.len(),
            all_digits(text.subrange(start as int, i as int)),
            number == decimal_value(text.subrange(start as int, i as int)),
            number <= u8::MAX,
        decreases bytes.len() - i,
    {
        let digit = match digit_of(char_at(bytes, i, Ghost(text))) {
            Some(digit) => digit,
            None => {
                assert(!is_digit(digits[i - start]));
                return None;
            },
        };
        proof {
            lemma_decimal_value_step(text, start as int, i as int);
        }
        number = number * 10 + digit as u16;
        i = i + 1;
        proof {
            lemma_all_digits_step(text, start as int, i - 1);
            assert(text.subrange(start as int, i as int) =~= digits.subrange(0, i - start));
        }
        if number > 255 {
            proof {
                lemma_decimal_value_grows(digits, i - start);
            }
            return None;
        }
    }
    assert(text.subrange(start as int, i as int) =~= digits);
    Some(number as u8)
}

/// Reads a field as a number from 0 to 255.
pub fn parse_u8(value: Option<&str>) -> (r: Result<Option<u8>, &'static str>)
    ensures
        r == spec_parse_u8(field_text(value)),
{
    match value {
        Some(s) => {
            if s.is_empty() {
                Ok(None)
            } else {
                match read_u8(s) {
                    Some(number) => Ok(Some(number)),
                    None => Err("Wrong unsigned 8-bit number!"),
                }
            }
        },
        None => Ok(None),
    }
}

/// True for a result that holds a value: one that is neither an error nor
/// `None`.
pub open spec fn holds_value<T>(r: Result<Option<T>, &'static str>) -> bool {
    r matches Ok(Some(_))
}

/// A result with the value in it, if any, replaced by its view.
pub open spec fn viewed<T: View>(r: Result<Option<T>, &'static str>) -> Result<
    Option<T::V>,
    &'static str,
> {
    match r {
        Ok(Some(value)) => Ok(Some(value@)),
        Ok(None) => Ok(None),
        Err(e) => Err(e),
    }
}

/// What `parse_decimal` gives for a field, the number by its view.
pub open spec fn spec_parse_decimal(field: Option<Seq<char>>) -> Result<
    Option<DecimalModel>,
    &'static str,
> {
    match field {
        Some(text) => coerced(field, decimal_of_text(text), "Wrong decimal number!"),
        None => Ok(None),
    }
}

/// Reads a field as a decimal number.
pub fn parse_decimal(value: Option<&str>) -> (r: Result<Option<Decimal>, &'static str>)
    ensures
        viewed(r) == spec_parse_decimal(field_text(value)),
        r matches Ok(Some(number)) ==> number@.well_formed(),
{
    match value {
        Some(s) => {
            if s.is_empty() {
                Ok(None)
            } else {
                match read_decimal(s) {
                    Some(number) => Ok(Some(number)),
                    None => Err("Wrong decimal number!"),
                }
            }
        },
        None => Ok(None),
    }
}

/// A numeric field reads as `None` exactly when it is blank, as an error
/// exactly when it has a text that spells no value, and as the value that
/// its text spells otherwise.
pub proof fn lemma_field_coercion(field: Option<Seq<char>>)
    ensures
        spec_parse_u8(field) == Ok::<Option<u8>, &'static str>(None) <==> is_blank(field),
        spec_parse_u8(field) is Err <==> !is_blank(field) && u8_of_text(field->0) is None,
        holds_value(spec_parse_u8(field)) <==> !is_blank(field) && u8_of_text(field->0) is Some,
        spec_parse_u8(field) matches Ok(Some(number)) ==> u8_of_text(field->0) == Some(number),
        spec_parse_decimal(field) == Ok::<Option<DecimalModel>, &'static str>(None) <==> is_blank(
            field,
        ),
        spec_parse_decimal(field) is Err <==> !is_blank(field) && decimal_of_text(field->0) is None,
        holds_value(spec_parse_decimal(field)) <==> !is_blank(field) && decimal_of_text(field->0)
            is Some,
        spec_parse_decimal(field) matches Ok(Some(number)) ==> decimal_of_text(field->0) == Some(
            number,
        ),
{
}

} // verus!
