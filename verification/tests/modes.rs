use nmea0183::modes::{Mode, Status};

#[test]
fn test_parse_status() {
    assert_eq!(Status::from_str("A"), Ok(Status::Valid));
    assert_eq!(Status::from_str("V"), Ok(Status::NotValid));
    // An empty status is no error: it reads as not valid.
    assert_ne!(Status::from_str(""), Err("Invalid status field!"));
    assert_eq!(Status::from_str(""), Ok(Status::NotValid));
}

#[test]
fn test_parse_mode() {
    assert_eq!(Mode::from_some_str(Some("A")), Ok(Mode::Autonomous));
    assert_eq!(Mode::from_some_str(Some("D")), Ok(Mode::Differential));
    assert_eq!(Mode::from_some_str(Some("E")), Ok(Mode::Estimated));
    assert_eq!(Mode::from_some_str(Some("M")), Ok(Mode::Manual));
    assert_eq!(Mode::from_some_str(Some("S")), Ok(Mode::Simulator));
    assert_eq!(Mode::from_some_str(Some("N")), Ok(Mode::NotValid));
    assert!(Mode::from_some_str(None).is_err());
    assert!(Mode::from_some_str(Some("")).is_err());
    assert!(Mode::from_some_str(Some("abc")).is_err());
}

#[test]
fn test_parse_mode_or_status() {
    assert_eq!(
        Mode::from_some_str_or_status(Some("A"), &Status::Valid),
        Ok(Mode::Autonomous)
    );
    assert_eq!(
        Mode::from_some_str_or_status(Some("D"), &Status::Valid),
        Ok(Mode::Differential)
    );
    assert_eq!(
        Mode::from_some_str_or_status(Some("E"), &Status::NotValid),
        Ok(Mode::Estimated)
    );
    assert_eq!(
        Mode::from_some_str_or_status(Some("M"), &Status::NotValid),
        Ok(Mode::Manual)
    );
    assert_eq!(
        Mode::from_some_str_or_status(Some("S"), &Status::NotValid),
        Ok(Mode::Simulator)
    );
    assert_eq!(
        Mode::from_some_str_or_status(Some("N"), &Status::NotValid),
        Ok(Mode::NotValid)
    );
    assert_eq!(
        Mode::from_some_str_or_status(None, &Status::NotValid),
        Ok(Mode::NotValid)
    );
    assert!(Mode::from_some_str_or_status(Some(""), &Status::NotValid).is_err());
    assert!(Mode::from_some_str_or_status(Some("abc"), &Status::NotValid).is_err());
}

#[test]
fn status_letters() {
    for code in ["A", "S", "D", "F", "P"] {
        assert_eq!(Status::from_str(code), Ok(Status::Valid));
    }
    assert_eq!(Status::from_str("C"), Ok(Status::ValidNotice));
    assert_eq!(Status::from_str("U"), Ok(Status::ValidDanger));
    assert_eq!(Status::from_str("V"), Ok(Status::NotValid));
}

#[test]
fn status_never_fails() {
    for code in ["", "a", "X", "AA", "A ", " A", "abc", "é", "1", ",", "\u{0}"] {
        assert_eq!(Status::from_str(code), Ok(Status::NotValid));
    }
}

#[test]
fn mode_letters() {
    assert_eq!(Mode::from_some_str(Some("A")), Ok(Mode::Autonomous));
    assert_eq!(Mode::from_some_str(Some("D")), Ok(Mode::Differential));
    assert_eq!(Mode::from_some_str(Some("E")), Ok(Mode::Estimated));
    assert_eq!(Mode::from_some_str(Some("F")), Ok(Mode::FRTK));
    assert_eq!(Mode::from_some_str(Some("M")), Ok(Mode::Manual));
    assert_eq!(Mode::from_some_str(Some("S")), Ok(Mode::Simulator));
    assert_eq!(Mode::from_some_str(Some("P")), Ok(Mode::PrecisionHigh));
    assert_eq!(Mode::from_some_str(Some("R")), Ok(Mode::IRTK));
    assert_eq!(Mode::from_some_str(Some("V")), Ok(Mode::Invalid));
    assert_eq!(Mode::from_some_str(Some("N")), Ok(Mode::NotValid));
}

#[test]
fn mode_errors_name_the_rule() {
    assert_eq!(Mode::from_some_str(None), Err("Mode field should not be null!"));
    assert_eq!(Mode::from_some_str(Some("")), Err("Mode should not be empty string!"));
    for code in ["a", "X", "C", "U", "AA", "A ", "abc", "é", "0"] {
        assert_eq!(Mode::from_some_str(Some(code)), Err("Wrong mode character!"));
    }
}

#[test]
fn mode_falls_back_on_status_only_when_absent() {
    assert_eq!(Mode::from_some_str_or_status(None, &Status::NotValid), Ok(Mode::NotValid));
    assert_eq!(Mode::from_some_str_or_status(None, &Status::Valid), Ok(Mode::Autonomous));
    assert_eq!(Mode::from_some_str_or_status(None, &Status::ValidNotice), Ok(Mode::Autonomous));
    assert_eq!(Mode::from_some_str_or_status(None, &Status::ValidDanger), Ok(Mode::Autonomous));
    for status in [Status::Valid, Status::ValidNotice, Status::ValidDanger, Status::NotValid] {
        assert_eq!(
            Mode::from_some_str_or_status(Some(""), &status),
            Err("Mode should not be empty string!")
        );
        assert_eq!(
            Mode::from_some_str_or_status(Some("x"), &status),
            Err("Wrong mode character!")
        );
        for code in ["A", "D", "E", "F", "M", "S", "P", "R", "V", "N"] {
            assert_eq!(
                Mode::from_some_str_or_status(Some(code), &status),
                Mode::from_some_str(Some(code))
            );
        }
    }
}

#[test]
fn mode_validity() {
    let valid = [
        Mode::Autonomous,
        Mode::Differential,
        Mode::FRTK,
        Mode::IRTK,
        Mode::PrecisionHigh,
    ];
    let invalid = [
        Mode::Estimated,
        Mode::Manual,
        Mode::Simulator,
        Mode::NotValid,
        Mode::Invalid,
    ];
    for mode in valid {
        assert!(mode.is_valid());
    }
    for mode in invalid {
        assert!(!mode.is_valid());
    }
}
