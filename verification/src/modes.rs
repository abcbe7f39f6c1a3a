//! Status and mode indicators.
//!
//! Sentences report the quality of a fix in two vocabularies: a status letter
//! and a mode letter. Both are decoded here. A status is decoded leniently,
//! so that a garbled letter never fails a sentence; a mode is decoded
//! strictly, because it decides whether the data beside it can be used.

use vstd::prelude::*;
use crate::fields::field_text;
use crate::text::{read_sole_ascii_char, sole_ascii_char};

verus! {

/// Coarse validity of a fix.
#[derive(Debug, PartialEq, Eq, Structural, Clone, Copy)]
pub enum Status {
    /// The data is valid.
    Valid,
    /// The data is valid, with a notice.
    ValidNotice,
    /// The data is valid, with a warning of danger.
    ValidDanger,
    /// The data is not valid.
    NotValid,
}

impl Status {
    /// The status that a status field stands for. Anything but one of the
    /// eight status letters stands for `NotValid`.
    pub open spec fn decode(code: Seq<char>) -> Status {
        match sole_ascii_char(code) {
            Some(c) => if c == 'A' || c == 'S' || c == 'D' || c == 'F' || c == 'P' {
                Status::Valid
            } else if c == 'C' {
                Status::ValidNotice
            } else if c == 'U' {
                Status::ValidDanger
            } else {
                Status::NotValid
            },
            None => Status::NotValid,
        }
    }

    /// Decodes a status field. This never fails: the result is always `Ok`,
    /// and a field that holds no status letter gives `NotValid`.
    pub fn from_str(st: &str) -> (r: Result<Status, &'static str>)
        ensures
            r == Ok::<Status, &'static str>(Status::decode(st@)),
    {
        match read_sole_ascii_char(st) {
            Some('A') | Some('S') | Some('D') | Some('F') | Some('P') => Ok(Status::Valid),
            Some('C') => Ok(Status::ValidNotice),
            Some('U') => Ok(Status::ValidDanger),
            _ => Ok(Status::NotValid),
        }
    }
}

/// Receiver mode of operation.
#[derive(Debug, PartialEq, Eq, Structural, Clone, Copy)]
pub enum Mode {
    /// Autonomous mode without any external correction.
    Autonomous,
    /// Differential correction used.
    Differential,
    /// Estimated position from previous data and movement model.
    Estimated,
    /// Real-time kinematic, float solution.
    FRTK,
    /// Real-time kinematic, integer solution.
    IRTK,
    /// High precision mode.
    PrecisionHigh,
    /// Set by operator.
    Manual,
    /// Simulation mode.
    Simulator,
    /// Completely invalid state. Position data, if present, could not be used.
    NotValid,
    /// The mode is invalid.
    Invalid,
}

impl Mode {
    /// The mode that a mode letter stands for.
    pub open spec fn of_letter(c: char) -> Option<Mode> {
        if c == 'A' {
            Some(Mode::Autonomous)
        } else if c == 'D' {
            Some(Mode::Differential)
        } else if c == 'E' {
            Some(Mode::Estimated)
        } else if c == 'F' {
            Some(Mode::FRTK)
        } else if c == 'M' {
            Some(Mode::Manual)
        } else if c == 'S' {
            Some(Mode::Simulator)
        } else if c == 'P' {
            Some(Mode::PrecisionHigh)
        } else if c == 'R' {
            Some(Mode::IRTK)
        } else if c == 'V' {
            Some(Mode::Invalid)
        } else if c == 'N' {
            Some(Mode::NotValid)
        } else {
            None
        }
    }

    /// The mode that a mode field holds, if it holds one mode letter.
    pub open spec fn of_text(code: Seq<char>) -> Option<Mode> {
        match sole_ascii_char(code) {
            Some(c) => Mode::of_letter(c),
            None => None,
        }
    }

    /// What decoding a mode field that is present gives: the mode of its
    /// letter, or the error for an empty field or for any other text.
    pub open spec fn decode_present(code: Seq<char>) -> Result<Mode, &'static str> {
        match Mode::of_text(code) {
            Some(mode) => Ok(mode),
            None => if code.len() == 0 {
                Err("Mode should not be empty string!")
            } else {
                Err("Wrong mode character!")
            },
        }
    }

    /// What strict decoding gives: an absent field is an error.
    pub open spec fn decode(code: Option<Seq<char>>) -> Result<Mode, &'static str> {
        match code {
            Some(text) => Mode::decode_present(text),
            None => Err("Mode field should not be null!"),
        }
    }

    /// The mode assumed for a sentence that carries a status and no mode field.
    pub open spec fn fallback(alternate: Status) -> Mode {
        if alternate == Status::NotValid {
            Mode::NotValid
        } else {
            Mode::Autonomous
        }
    }

    /// What decoding with a fallback gives: an absent field takes the mode
    /// that the status implies, a present field is decoded strictly.
    pub open spec fn decode_or_status(code: Option<Seq<char>>, alternate: Status) -> Result<
        Mode,
        &'static str,
    > {
        match code {
            Some(text) => Mode::decode_present(text),
            None => Ok(Mode::fallback(alternate)),
        }
    }

    /// The modes under which the data of a sentence can be used.
    pub open spec fn usable(self) -> bool {
        self == Mode::Autonomous || self == Mode::Differential || self == Mode::FRTK || self
            == Mode::IRTK || self == Mode::PrecisionHigh
    }

    /// Position data should be valid if true.
    pub fn is_valid(&self) -> (r: bool)
        ensures
            r == self.usable(),
    {
        match self {
            Mode::Autonomous => true,
            Mode::Differential => true,
            Mode::FRTK => true,
            Mode::IRTK => true,
            Mode::PrecisionHigh => true,
            _ => false,
        }
    }

    /// Decodes a mode field that is present.
    fn from_present(code: &str) -> (r: Result<Mode, &'static str>)
        ensures
            r == Mode::decode_present(code@),
    {
        match read_sole_ascii_char(code) {
            Some('A') => Ok(Mode::Autonomous),
            Some('D') => Ok(Mode::Differential),
            Some('E') => Ok(Mode::Estimated),
            Some('F') => Ok(Mode::FRTK),
            Some('M') => Ok(Mode::Manual),
            Some('S') => Ok(Mode::Simulator),
            Some('P') => Ok(Mode::PrecisionHigh),
            Some('R') => Ok(Mode::IRTK),
            Some('V') => Ok(Mode::Invalid),
            Some('N') => Ok(Mode::NotValid),
            _ => if code.is_empty() {
                Err("Mode should not be empty string!")
            } else {
                Err("Wrong mode character!")
            },
        }
    }

    /// Decodes a mode field strictly: the field has to be present and to
    /// hold one of the ten mode letters.
    pub fn from_some_str(from: Option<&str>) -> (r: Result<Mode, &'static str>)
        ensures
            r == Mode::decode(field_text(from)),
    {
        match from {
            Some(code) => Mode::from_present(code),
            None => Err("Mode field should not be null!"),
        }
    }

    /// Decodes a mode field of a sentence that also carries a status. Only
    /// an absent field falls back on the status; an empty or unrecognized
    /// one is an error as in the strict form.
    pub fn from_some_str_or_status(from: Option<&str>, alternate: &Status) -> (r: Result<
        Mode,
        &'static str,
    >)
        ensures
            r == Mode::decode_or_status(field_text(from), *alternate),
    {
        match from {
            Some(code) => Mode::from_present(code),
            None => match alternate {
                Status::NotValid => Ok(Mode::NotValid),
                _ => Ok(Mode::Autonomous),
            },
        }
    }
}

/// True for the seven letters that stand for a status other than
/// `NotValid`.
pub open spec fn is_valid_status_letter(c: char) -> bool {
    c == 'A' || c == 'S' || c == 'D' || c == 'F' || c == 'P' || c == 'C' || c == 'U'
}

/// A status field is decoded by its letter alone: `A`, `S`, `D`, `F` and
/// `P` are `Valid`, `C` is `ValidNotice`, `U` is `ValidDanger`, and every
/// other text, `V` among them, is `NotValid`.
pub proof fn lemma_status_decode(code: Seq<char>)
    ensures
        Status::decode(code) == Status::Valid <==> code.len() == 1 && (code[0] == 'A' || code[0]
            == 'S' || code[0] == 'D' || code[0] == 'F' || code[0] == 'P'),
        Status::decode(code) == Status::ValidNotice <==> code.len() == 1 && code[0] == 'C',
        Status::decode(code) == Status::ValidDanger <==> code.len() == 1 && code[0] == 'U',
        Status::decode(code) == Status::NotValid <==> !(code.len() == 1 && is_valid_status_letter(
            code[0],
        )),
{
}

/// Strict decoding of a mode succeeds on the ten mode letters and on
/// nothing else. An absent field, an empty field and any other text each
/// have an error of their own.
pub proof fn lemma_mode_decode(code: Option<Seq<char>>)
    ensures
        Mode::decode(code) is Ok <==> code is Some && code->0.len() == 1 && Mode::of_letter(
            code->0[0],
        ) is Some,
        Mode::decode(code) is Ok ==> Mode::decode(code) == Ok::<Mode, &'static str>(
            Mode::of_letter(code->0[0])->0,
        ),
        Mode::decode(code) == Err::<Mode, &'static str>("Mode field should not be null!")
            <==> code is None,
        Mode::decode(code) == Err::<Mode, &'static str>("Mode should not be empty string!")
            <==> code is Some && code->0.len() == 0,
        Mode::decode(code) == Err::<Mode, &'static str>("Wrong mode character!") <==> code is Some
            && code->0.len() > 0 && !(code->0.len() == 1 && Mode::of_letter(code->0[0]) is Some),
{
    reveal_strlit("Mode field should not be null!");
    reveal_strlit("Mode should not be empty string!");
    reveal_strlit("Wrong mode character!");
    assert("Mode field should not be null!"@.len() == 30);
    assert("Mode should not be empty string!"@.len() == 32);
    assert("Wrong mode character!"@.len() == 21);
}

/// Only the absence of the mode field falls back on the status. A field
/// that is present, be it empty or unrecognized, is decoded as in the
/// strict form whatever the status; an absent one never fails, and gives
/// `NotValid` for the status `NotValid` and `Autonomous` for any other.
pub proof fn lemma_mode_fallback(code: Option<Seq<char>>, alternate: Status)
    ensures
        code is Some ==> Mode::decode_or_status(code, alternate) == Mode::decode(code),
        code is None && alternate == Status::NotValid ==> Mode::decode_or_status(code, alternate)
            == Ok::<Mode, &'static str>(Mode::NotValid),
        code is None && alternate != Status::NotValid ==> Mode::decode_or_status(code, alternate)
            == Ok::<Mode, &'static str>(Mode::Autonomous),
        code == Some(Seq::<char>::empty()) ==> Mode::decode_or_status(code, alternate) is Err,
{
}

/// A mode is usable or it is one of `Estimated`, `Manual`, `Simulator`,
/// `NotValid` and `Invalid`, and never both.
pub proof fn lemma_mode_usable(mode: Mode)
    ensures
        mode.usable() <==> !(mode == Mode::Estimated || mode == Mode::Manual || mode
            == Mode::Simulator || mode == Mode::NotValid || mode == Mode::Invalid),
{
}

} // verus!
