use nmea0183::common::{parse_decimal, parse_u8, read_u8};
use nmea0183::decimal::{read_decimal, Decimal};

fn finite(negative: bool, digits: &[u8], exponent: i64) -> Decimal {
    Decimal::Finite { negative, digits: digits.to_vec(), exponent }
}

/// The nearest single-precision number to a decimal.
fn rounded(number: &Decimal) -> f32 {
    match number {
        Decimal::Finite { negative, digits, exponent } => {
            let mut text = String::new();
            if *negative {
                text.push('-');
            }
            for digit in digits {
                text.push(char::from(b'0' + digit));
            }
            text.push_str(&format!("e{}", exponent));
            text.parse::<f32>().unwrap()
        }
        Decimal::Infinite { negative: false } => f32::INFINITY,
        Decimal::Infinite { negative: true } => f32::NEG_INFINITY,
        Decimal::Nan { negative: false } => f32::NAN,
        Decimal::Nan { negative: true } => -f32::NAN,
    }
}

#[test]
fn blank_fields_are_none() {
    assert_eq!(parse_u8(None), Ok(None));
    assert_eq!(parse_u8(Some("")), Ok(None));
    assert_eq!(parse_decimal(None), Ok(None));
    assert_eq!(parse_decimal(Some("")), Ok(None));
}

#[test]
fn decimal_field_coercion() {
    assert_eq!(parse_decimal(Some("12.5")), Ok(Some(finite(false, &[1, 2, 5], -1))));
    assert_eq!(rounded(&parse_decimal(Some("12.5")).unwrap().unwrap()), 12.5);
    assert_eq!(parse_decimal(Some("abc")), Err("Wrong decimal number!"));
}

#[test]
fn u8_field_coercion() {
    assert_eq!(parse_u8(Some("1")), Ok(Some(1)));
    assert_eq!(parse_u8(Some("08")), Ok(Some(8)));
    assert_eq!(parse_u8(Some("0")), Ok(Some(0)));
    assert_eq!(parse_u8(Some("255")), Ok(Some(255)));
    assert_eq!(parse_u8(Some("+7")), Ok(Some(7)));
    assert_eq!(parse_u8(Some("000000000000000000000000255")), Ok(Some(255)));
    assert_eq!(parse_u8(Some("256")), Err("Wrong unsigned 8-bit number!"));
    assert_eq!(parse_u8(Some("abc")), Err("Wrong unsigned 8-bit number!"));
}

#[test]
fn u8_agrees_with_the_standard_reading() {
    let texts = [
        "", "0", "7", "42", "255", "256", "0255", "00000", "999", "1000", "65536",
        "99999999999999999999999999", "+", "-", "+0", "-0", "+255", "+256", "++1", "+-1", "1+",
        " 1", "1 ", "1a", "a1", "0x10", "1_0", "1.0", "١", "é", "12é", "۱۲",
    ];
    for text in texts {
        assert_eq!(read_u8(text), text.parse::<u8>().ok(), "{:?}", text);
    }
}

#[test]
fn decimal_values() {
    assert_eq!(read_decimal("0"), Some(finite(false, &[0], 0)));
    assert_eq!(read_decimal("45.0"), Some(finite(false, &[4, 5, 0], -1)));
    assert_eq!(read_decimal("-3.25"), Some(finite(true, &[3, 2, 5], -2)));
    assert_eq!(read_decimal("+3.25"), Some(finite(false, &[3, 2, 5], -2)));
    assert_eq!(read_decimal("007.50"), Some(finite(false, &[0, 0, 7, 5, 0], -2)));
    assert_eq!(read_decimal(".5"), Some(finite(false, &[5], -1)));
    assert_eq!(read_decimal("5."), Some(finite(false, &[5], 0)));
    assert_eq!(read_decimal("1e3"), Some(finite(false, &[1], 3)));
    assert_eq!(read_decimal("1E3"), Some(finite(false, &[1], 3)));
    assert_eq!(read_decimal("1.5e-3"), Some(finite(false, &[1, 5], -4)));
    assert_eq!(read_decimal("1.5e+3"), Some(finite(false, &[1, 5], 2)));
    assert_eq!(read_decimal("-12.e007"), Some(finite(true, &[1, 2], 7)));
    assert_eq!(read_decimal("inf"), Some(Decimal::Infinite { negative: false }));
    assert_eq!(read_decimal("-Infinity"), Some(Decimal::Infinite { negative: true }));
    assert_eq!(read_decimal("+INF"), Some(Decimal::Infinite { negative: false }));
    assert_eq!(read_decimal("NaN"), Some(Decimal::Nan { negative: false }));
    assert_eq!(read_decimal("-nan"), Some(Decimal::Nan { negative: true }));
}

#[test]
fn decimal_exponent_is_clamped() {
    assert_eq!(
        read_decimal("1e9223372036854775807"),
        Some(finite(false, &[1], i64::MAX))
    );
    assert_eq!(
        read_decimal("1e9223372036854775808"),
        Some(finite(false, &[1], i64::MAX))
    );
    assert_eq!(
        read_decimal("1e99999999999999999999999999999999999999999999"),
        Some(finite(false, &[1], i64::MAX))
    );
    assert_eq!(
        read_decimal("1.5e9223372036854775808"),
        Some(finite(false, &[1, 5], i64::MAX))
    );
    assert_eq!(
        read_decimal("1.5e9223372036854775807"),
        Some(finite(false, &[1, 5], i64::MAX - 1))
    );
    assert_eq!(
        read_decimal("1e-9223372036854775808"),
        Some(finite(false, &[1], i64::MIN))
    );
    assert_eq!(
        read_decimal("1.5e-9223372036854775807"),
        Some(finite(false, &[1, 5], i64::MIN))
    );
    assert_eq!(
        read_decimal("1e-99999999999999999999999999999999999999999999"),
        Some(finite(false, &[1], i64::MIN))
    );
}

#[test]
fn decimal_rejects_what_is_no_number() {
    let texts = [
        "", "+", "-", ".", "+.", "e5", ".e5", "1e", "1e+", "1e-", "1e1.5", "1..2", "1.2.3",
        "--1", "+-1", "1-", " 1", "1 ", "1,5", "1_000", "0x10", "abc", "xx", "in", "infi",
        "infinit", "infinityy", "nana", "na", "1f", "1.0f32", "一", "１２", "1é",
    ];
    for text in texts {
        assert_eq!(read_decimal(text), None, "{:?}", text);
    }
}

#[test]
fn decimal_agrees_with_the_standard_reading() {
    let texts = [
        "", "0", "-0", "+0", "1", "12.5", "45.0", "3.5", "0.5", "2.0", ".5", "5.", ".", "+.5",
        "-.5", "-5.", "1e3", "1E3", "1e+3", "1e-3", "1e", "1e+", "e3", ".e3", "1.e3", ".1e3",
        "1e03", "1e1.0", "123456789012345678901234567890", "0.000000000000000000000000000001",
        "3.4028235e38", "3.4028236e38", "1e39", "1e-46", "1.17549435e-38", "16777217",
        "0.1", "0.3", "inf", "INF", "Inf", "+inf", "-inf", "infinity", "INFINITY", "-Infinity",
        "infinit", "nan", "NaN", "NAN", "+nan", "in", "na", "abc", "xx", "1a", "a1", " 1",
        "1 ", "1_0", "0x1p3", "1,5", "--1", "1e99999", "1e-99999", "é", "1é",
        "179.99999", "359.9", "-0.0", "00045.000",
    ];
    for text in texts {
        let expected = text.parse::<f32>().ok();
        let got = read_decimal(text).map(|number| rounded(&number));
        assert_eq!(
            got.map(f32::to_bits),
            expected.map(f32::to_bits),
            "{:?}",
            text
        );
    }
}

/// A sequence of numbers that looks random and is the same on every run.
fn next_number(state: &mut u64) -> u64 {
    *state = state
        .wrapping_mul(6364136223846793005)
        .wrapping_add(1442695040888963407);
    *state >> 33
}

fn text_over(alphabet: &[char], state: &mut u64) -> String {
    let length = next_number(state) % 9;
    let mut text = String::new();
    for _ in 0..length {
        text.push(alphabet[(next_number(state) % alphabet.len() as u64) as usize]);
    }
    text
}

#[test]
fn decimal_agrees_with_the_standard_reading_on_many_texts() {
    let alphabets: [&[char]; 3] = [
        &['0', '1', '2', '5', '9', '.', '+', '-', 'e', 'E'],
        &['0', '7', '.', '-', 'e', 'i', 'n', 'f', 'a', 'I', 'N', 'F', 'A', 't', 'y', 'T', 'Y'],
        &['3', '.', ' ', ',', 'x', '_', 'é', '٣', 'e', '+'],
    ];
    let mut state = 2026;
    for alphabet in alphabets {
        for _ in 0..40_000 {
            let text = text_over(alphabet, &mut state);
            let expected = text.parse::<f32>().ok();
            let got = read_decimal(&text).map(|number| rounded(&number));
            assert_eq!(got.map(f32::to_bits), expected.map(f32::to_bits), "{:?}", text);
        }
    }
}

#[test]
fn u8_agrees_with_the_standard_reading_on_many_texts() {
    let alphabets: [&[char]; 2] = [
        &['0', '1', '2', '5', '6', '9', '+'],
        &['0', '2', '5', '+', '-', ' ', '.', 'a', '٣'],
    ];
    let mut state = 183;
    for alphabet in alphabets {
        for _ in 0..40_000 {
            let text = text_over(alphabet, &mut state);
            assert_eq!(read_u8(&text), text.parse::<u8>().ok(), "{:?}", text);
        }
    }
}
