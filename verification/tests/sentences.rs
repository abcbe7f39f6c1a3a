use nmea0183::datetime::Time;
use nmea0183::decimal::Decimal;
use nmea0183::fields::Fields;
use nmea0183::hpr::HPR;
use nmea0183::rot::ROT;
use nmea0183::Source;

fn finite(digits: &[u8], exponent: i64) -> Decimal {
    Decimal::Finite { negative: false, digits: digits.to_vec(), exponent }
}

/// The nearest single-precision number to a finite decimal.
fn rounded(number: &Decimal) -> f32 {
    match number {
        Decimal::Finite { negative, digits, exponent } => {
            let mut text = String::new();
            if *negative {
                text.push('-');
            }
            for digit in digits {
                text.push(char::from(b'0' + digit));
            }
            text.push_str(&format!("e{}", exponent));
            text.parse::<f32>().unwrap()
        }
        _ => panic!("not finite"),
    }
}

#[test]
fn fields_are_read_in_order() {
    let items = ["a", "", "c"];
    let mut fields = Fields::new(&items);
    assert_eq!(fields.remaining(), 3);
    assert_eq!(fields.next(), Some("a"));
    assert_eq!(fields.next(), Some(""));
    assert_eq!(fields.remaining(), 1);
    assert_eq!(fields.next(), Some("c"));
    assert_eq!(fields.remaining(), 0);
    assert_eq!(fields.next(), None);
    assert_eq!(fields.next(), None);
    assert_eq!(fields.remaining(), 0);
}

#[test]
fn no_fields_at_all() {
    let mut fields = Fields::new(&[]);
    assert_eq!(fields.remaining(), 0);
    assert_eq!(fields.next(), None);
}

#[test]
fn hpr_full_sentence() {
    let items = ["123456.00", "45.0", "1.0", "0.5", "1", "08", "2.0", "0"];
    let mut fields = Fields::new(&items);
    let record = HPR::parse(Source::GPS, &mut fields).unwrap().unwrap();
    assert_eq!(
        record,
        HPR {
            time: Time { hours: 12, minutes: 34, seconds: 56, nanos: 0 },
            heading: finite(&[4, 5, 0], -1),
            pitch: finite(&[1, 0], -1),
            roll: finite(&[0, 5], -1),
            qf: 1,
            no_sat: 8,
            age: finite(&[2, 0], -1),
            stn_id: 0,
        }
    );
    assert_eq!(rounded(&record.heading), 45.0);
    assert_eq!(rounded(&record.pitch), 1.0);
    assert_eq!(rounded(&record.roll), 0.5);
    assert_eq!(rounded(&record.age), 2.0);
    assert_eq!(fields.remaining(), 0);
}

#[test]
fn hpr_blank_heading_is_none() {
    let items = ["123456.00", "", "1.0", "0.5", "1", "08", "2.0", "0"];
    let mut fields = Fields::new(&items);
    assert_eq!(HPR::parse(Source::GPS, &mut fields), Ok(None));
    assert_eq!(fields.remaining(), 0);
}

#[test]
fn hpr_malformed_heading_is_an_error() {
    let items = ["123456.00", "xx", "1.0", "0.5", "1", "08", "2.0", "0"];
    let mut fields = Fields::new(&items);
    assert_eq!(HPR::parse(Source::GPS, &mut fields), Err("Wrong decimal number!"));
    assert_eq!(fields.remaining(), 6);
    assert_eq!(fields.next(), Some("1.0"));
}

#[test]
fn hpr_any_blank_field_is_none() {
    let full = ["123456.00", "45.0", "1.0", "0.5", "1", "08", "2.0", "0"];
    for blank in 0..7 {
        let mut items = full;
        items[blank] = "";
        let mut fields = Fields::new(&items);
        assert_eq!(HPR::parse(Source::GNSS, &mut fields), Ok(None), "field {}", blank);
        assert_eq!(fields.remaining(), 0);
    }
}

#[test]
fn hpr_reserved_field_is_not_looked_at() {
    for reserved in ["", "0", "1234", "garbage", "\u{0}"] {
        let items = ["000000", "0", "0", "0", "0", "0", "0", reserved, "next"];
        let mut fields = Fields::new(&items);
        let record = HPR::parse(Source::Beidou, &mut fields).unwrap().unwrap();
        assert_eq!(record.stn_id, 0);
        assert_eq!(fields.remaining(), 1);
        assert_eq!(fields.next(), Some("next"));
    }
}

#[test]
fn hpr_short_sentence_is_none() {
    for count in 0..7 {
        let full = ["123456.00", "45.0", "1.0", "0.5", "1", "08", "2.0"];
        let mut fields = Fields::new(&full[..count]);
        assert_eq!(HPR::parse(Source::GPS, &mut fields), Ok(None), "{} fields", count);
        assert_eq!(fields.remaining(), 0);
    }
    let seven = ["123456.00", "45.0", "1.0", "0.5", "1", "08", "2.0"];
    let mut fields = Fields::new(&seven);
    assert!(HPR::parse(Source::GPS, &mut fields).unwrap().is_some());
}

#[test]
fn hpr_first_error_wins() {
    let cases: [(usize, &str, &str); 7] = [
        (0, "250000", "Hours should be from 00 to 23!"),
        (1, "x", "Wrong decimal number!"),
        (2, "1..0", "Wrong decimal number!"),
        (3, "--1", "Wrong decimal number!"),
        (4, "256", "Wrong unsigned 8-bit number!"),
        (5, "-1", "Wrong unsigned 8-bit number!"),
        (6, "2,0", "Wrong decimal number!"),
    ];
    for (position, text, error) in cases {
        // Everything in front is blank, everything behind is malformed too.
        let mut items = ["", "", "", "", "", "", "", "0"];
        for later in position..7 {
            items[later] = "?";
        }
        items[position] = text;
        let mut fields = Fields::new(&items);
        assert_eq!(HPR::parse(Source::GLONASS, &mut fields), Err(error), "field {}", position);
        assert_eq!(fields.remaining(), 7 - position);
    }
}

#[test]
fn hpr_source_does_not_matter() {
    let items = ["123456.00", "45.0", "1.0", "0.5", "1", "08", "2.0", "0"];
    let expected = HPR::parse(Source::GPS, &mut Fields::new(&items));
    for source in [Source::GLONASS, Source::Galileo, Source::Beidou, Source::GNSS] {
        assert_eq!(HPR::parse(source, &mut Fields::new(&items)), expected);
    }
}

#[test]
fn rot_full_sentence() {
    let items = ["3.5", "A"];
    let mut fields = Fields::new(&items);
    let record = ROT::parse(Source::GPS, &mut fields);
    assert_eq!(record, Ok(Some(ROT { rate: finite(&[3, 5], -1) })));
    assert_eq!(rounded(&record.unwrap().unwrap().rate), 3.5);
    assert_eq!(fields.remaining(), 0);
}

#[test]
fn rot_without_status_is_an_error() {
    let items = ["3.5"];
    let mut fields = Fields::new(&items);
    assert_eq!(
        ROT::parse(Source::GPS, &mut fields),
        Err("Status field is mandatory for ROT sentence!")
    );
    let mut none = Fields::new(&[]);
    assert_eq!(
        ROT::parse(Source::GPS, &mut none),
        Err("Status field is mandatory for ROT sentence!")
    );
}

#[test]
fn rot_blank_rate_is_none() {
    let items = ["", "A"];
    let mut fields = Fields::new(&items);
    assert_eq!(ROT::parse(Source::GPS, &mut fields), Ok(None));
    assert_eq!(fields.remaining(), 0);
}

#[test]
fn rot_malformed_rate_is_an_error() {
    let items = ["3,5", "A", "next"];
    let mut fields = Fields::new(&items);
    assert_eq!(ROT::parse(Source::GPS, &mut fields), Err("Wrong decimal number!"));
    assert_eq!(fields.next(), Some("A"));
}

#[test]
fn rot_status_is_a_gate_only() {
    for status in ["A", "V", "", "garbage", "é"] {
        let items = ["-12.25", status, "next"];
        let mut fields = Fields::new(&items);
        assert_eq!(
            ROT::parse(Source::Galileo, &mut fields),
            Ok(Some(ROT {
                rate: Decimal::Finite { negative: true, digits: vec![1, 2, 2, 5], exponent: -2 }
            }))
        );
        assert_eq!(fields.next(), Some("next"));
    }
}

#[test]
fn parsing_twice_gives_the_same() {
    let sentences: [&[&str]; 5] = [
        &["123456.00", "45.0", "1.0", "0.5", "1", "08", "2.0", "0"],
        &["123456.00", "", "1.0", "0.5", "1", "08", "2.0", "0"],
        &["123456.00", "xx", "1.0", "0.5", "1", "08", "2.0", "0"],
        &["3.5", "A"],
        &[],
    ];
    for items in sentences {
        let first = HPR::parse(Source::GPS, &mut Fields::new(items));
        let second = HPR::parse(Source::GPS, &mut Fields::new(items));
        assert_eq!(first, second);
        let first = ROT::parse(Source::GPS, &mut Fields::new(items));
        let second = ROT::parse(Source::GPS, &mut Fields::new(items));
        assert_eq!(first, second);
    }
}

#[test]
fn records_clone_as_they_are() {
    let items = ["235959.25", "-0.5", "1e1", "+.5", "255", "0", "inf", ""];
    let record = HPR::parse(Source::GPS, &mut Fields::new(&items)).unwrap().unwrap();
    assert_eq!(record.clone(), record);
    assert_eq!(record.time, Time { hours: 23, minutes: 59, seconds: 59, nanos: 250_000_000 });
    assert_eq!(
        record.heading,
        Decimal::Finite { negative: true, digits: vec![0, 5], exponent: -1 }
    );
    assert_eq!(record.pitch, finite(&[1], 1));
    assert_eq!(record.roll, finite(&[5], -1));
    assert_eq!(record.qf, 255);
    assert_eq!(record.no_sat, 0);
    assert_eq!(record.age, Decimal::Infinite { negative: false });
    let rate = ROT::parse(Source::GPS, &mut Fields::new(&["nan", "V"])).unwrap().unwrap();
    assert_eq!(rate.clone(), rate);
    assert_eq!(rate.rate.clone(), Decimal::Nan { negative: false });
}
