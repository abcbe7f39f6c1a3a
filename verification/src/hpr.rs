//! The heading, pitch and roll sentence.

use vstd::prelude::*;
use crate::common::{
    holds_value,
    parse_decimal,
    parse_u8,
    spec_parse_decimal,
    spec_parse_u8,
    viewed,
};
use crate::datetime::Time;
use crate::decimal::{Decimal, DecimalModel};
use crate::fields::{field_at, is_blank, lemma_rest_after_next, rest_after, Fields};
use crate::Source;

verus! {

/// Heading, pitch and roll of the receiver.
#[derive(Debug, PartialEq, Eq)]
pub struct HPR {
    /// Time of the measurement.
    pub time: Time,
    /// Heading, in degrees.
    pub heading: Decimal,
    /// Pitch, in degrees.
    pub pitch: Decimal,
    /// Roll, in degrees.
    pub roll: Decimal,
    /// Quality flag of the solution.
    pub qf: u8,
    /// Number of satellites.
    pub no_sat: u8,
    /// Age of the differential correction, in seconds.
    pub age: Decimal,
    /// Reference station. No sentence carries it yet: it is always 0.
    pub stn_id: u8,
}

/// The mathematical content of an `HPR`.
pub struct HprModel {
    pub time: Time,
    pub heading: DecimalModel,
    pub pitch: DecimalModel,
    pub roll: DecimalModel,
    pub qf: u8,
    pub no_sat: u8,
    pub age: DecimalModel,
    pub stn_id: u8,
}

impl View for HPR {
    type V = HprModel;

    open spec fn view(&self) -> HprModel {
        HprModel {
            time: self.time,
            heading: self.heading@,
            pitch: self.pitch@,
            roll: self.roll@,
            qf: self.qf,
            no_sat: self.no_sat,
            age: self.age@,
            stn_id: self.stn_id,
        }
    }
}

impl HprModel {
    /// True when the time is a time of day, every digit of the four
    /// decimal numbers is at most 9, and the reference station is 0.
    pub open spec fn well_formed(self) -> bool {
        &&& self.time.well_formed()
        &&& self.heading.well_formed()
        &&& self.pitch.well_formed()
        &&& self.roll.well_formed()
        &&& self.age.well_formed()
        &&& self.stn_id == 0
    }
}

impl Clone for HPR {
    fn clone(&self) -> (r: HPR)
        ensures
            r@ == self@,
    {
        HPR {
            time: self.time,
            heading: self.heading.clone(),
            pitch: self.pitch.clone(),
            roll: self.roll.clone(),
            qf: self.qf,
            no_sat: self.no_sat,
            age: self.age.clone(),
            stn_id: self.stn_id,
        }
    }
}

impl HPR {
    /// The record of seven fields if each of them holds a value, and `None`
    /// if any of them is blank.
    pub open spec fn complete(
        time: Option<Time>,
        heading: Option<DecimalModel>,
        pitch: Option<DecimalModel>,
        roll: Option<DecimalModel>,
        qf: Option<u8>,
        no_sat: Option<u8>,
        age: Option<DecimalModel>,
    ) -> Option<HprModel> {
        match (time, heading, pitch, roll, qf, no_sat, age) {
            (
                Some(time),
                Some(heading),
                Some(pitch),
                Some(roll),
                Some(qf),
                Some(no_sat),
                Some(age),
            ) => Some(HprModel { time, heading, pitch, roll, qf, no_sat, age, stn_id: 0 }),
            _ => None,
        }
    }

    /// What `parse` returns for the fields of a sentence. The fields are
    /// time, heading, pitch, roll, quality flag, number of satellites and
    /// age, in this order. The first of them that is malformed gives its
    /// error; with none malformed the result is the record, or `None` if
    /// any of the seven is blank.
    pub open spec fn spec_parse(fields: Seq<Seq<char>>) -> Result<Option<HprModel>, &'static str> {
        let time = Time::spec_parse_from_hhmmss(field_at(fields, 0));
        let heading = spec_parse_decimal(field_at(fields, 1));
        let pitch = spec_parse_decimal(field_at(fields, 2));
        let roll = spec_parse_decimal(field_at(fields, 3));
        let qf = spec_parse_u8(field_at(fields, 4));
        let no_sat = spec_parse_u8(field_at(fields, 5));
        let age = spec_parse_decimal(field_at(fields, 6));
        if let Err(e) = time {
            Err(e)
        } else if let Err(e) = heading {
            Err(e)
        } else if let Err(e) = pitch {
            Err(e)
        } else if let Err(e) = roll {
            Err(e)
        } else if let Err(e) = qf {
            Err(e)
        } else if let Err(e) = no_sat {
            Err(e)
        } else if let Err(e) = age {
            Err(e)
        } else {
            Ok(
                HPR::complete(
                    time->Ok_0,
                    heading->Ok_0,
                    pitch->Ok_0,
                    roll->Ok_0,
                    qf->Ok_0,
                    no_sat->Ok_0,
                    age->Ok_0,
                ),
            )
        }
    }

    /// The number of fields that `parse` reads: up to and with the first
    /// malformed one, or eight, the seven of the record and one that is
    /// reserved.
    pub open spec fn fields_read(fields: Seq<Seq<char>>) -> int {
        if Time::spec_parse_from_hhmmss(field_at(fields, 0)) is Err {
            1
        } else if spec_parse_decimal(field_at(fields, 1)) is Err {
            2
        } else if spec_parse_decimal(field_at(fields, 2)) is Err {
            3
        } else if spec_parse_decimal(field_at(fields, 3)) is Err {
            4
        } else if spec_parse_u8(field_at(fields, 4)) is Err {
            5
        } else if spec_parse_u8(field_at(fields, 5)) is Err {
            6
        } else if spec_parse_decimal(field_at(fields, 6)) is Err {
            7
        } else {
            8
        }
    }

    /// Reads the fields of a heading, pitch and roll sentence, in their
    /// order. The reserved field behind the seven of the record is read
    /// and not looked at.
    #[allow(unused_variables)]
    pub fn parse(source: Source, fields: &mut Fields<'_>) -> (r: Result<Option<HPR>, &'static str>)
        ensures
            viewed(r) == HPR::spec_parse(old(fields)@),
            r matches Ok(Some(record)) ==> record@.well_formed(),
            final(fields)@ == rest_after(old(fields)@, HPR::fields_read(old(fields)@)),
    {
        let ghost all = fields@;
        proof {
            lemma_rest_after_next(all, 0);
            lemma_rest_after_next(all, 1);
            lemma_rest_after_next(all, 2);
            lemma_rest_after_next(all, 3);
            lemma_rest_after_next(all, 4);
            lemma_rest_after_next(all, 5);
            lemma_rest_after_next(all, 6);
            lemma_rest_after_next(all, 7);
        }
        let time = match Time::parse_from_hhmmss(fields.next()) {
            Ok(time) => time,
            Err(e) => { return Err(e); },
        };
        let heading = match parse_decimal(fields.next()) {
            Ok(heading) => heading,
            Err(e) => { return Err(e); },
        };
        let pitch = match parse_decimal(fields.next()) {
            Ok(pitch) => pitch,
            Err(e) => { return Err(e); },
        };
        let roll = match parse_decimal(fields.next()) {
            Ok(roll) => roll,
            Err(e) => { return Err(e); },
        };
        let qf = match parse_u8(fields.next()) {
            Ok(qf) => qf,
            Err(e) => { return Err(e); },
        };
        let no_sat = match parse_u8(fields.next()) {
            Ok(no_sat) => no_sat,
            Err(e) => { return Err(e); },
        };
        let age = match parse_decimal(fields.next()) {
            Ok(age) => age,
            Err(e) => { return Err(e); },
        };

        fields.next();

        if let (
            Some(time),
            Some(heading),
            Some(pitch),
            Some(roll),
            Some(qf),
            Some(no_sat),
            Some(age),
        ) = (time, heading, pitch, roll, qf, no_sat, age) {
            Ok(Some(HPR { time, heading, pitch, roll, qf, no_sat, age, stn_id: 0 }))
        } else {
            Ok(None)
        }
    }
}

/// Parsing is a function of the fields alone: any two results of parsing
/// the same fields are the same, value for value.
pub proof fn lemma_parse_repeatable(
    fields: Seq<Seq<char>>,
    first: Result<Option<HPR>, &'static str>,
    second: Result<Option<HPR>, &'static str>,
)
    requires
        viewed(first) == HPR::spec_parse(fields),
        viewed(second) == HPR::spec_parse(fields),
    ensures
        viewed(first) == viewed(second),
{
}

/// The outcome for a sentence follows from the outcomes for its seven
/// fields: an error if one of them is malformed, a record if each holds a
/// value, and `None` if none is malformed and one is blank. The record
/// holds what each field spells, and 0 for the reference station.
pub proof fn lemma_parse_outcome(fields: Seq<Seq<char>>)
    ensures
        HPR::spec_parse(fields) is Err <==> {
            ||| Time::spec_parse_from_hhmmss(field_at(fields, 0)) is Err
            ||| spec_parse_decimal(field_at(fields, 1)) is Err
            ||| spec_parse_decimal(field_at(fields, 2)) is Err
            ||| spec_parse_decimal(field_at(fields, 3)) is Err
            ||| spec_parse_u8(field_at(fields, 4)) is Err
            ||| spec_parse_u8(field_at(fields, 5)) is Err
            ||| spec_parse_decimal(field_at(fields, 6)) is Err
        },
        HPR::spec_parse(fields) == Ok::<Option<HprModel>, &'static str>(None) <==> {
            &&& HPR::spec_parse(fields) is Ok
            &&& exists|i: int| 0 <= i < 7 && is_blank(#[trigger] field_at(fields, i))
        },
        holds_value(HPR::spec_parse(fields)) <==> {
            &&& holds_value(Time::spec_parse_from_hhmmss(field_at(fields, 0)))
            &&& holds_value(spec_parse_decimal(field_at(fields, 1)))
            &&& holds_value(spec_parse_decimal(field_at(fields, 2)))
            &&& holds_value(spec_parse_decimal(field_at(fields, 3)))
            &&& holds_value(spec_parse_u8(field_at(fields, 4)))
            &&& holds_value(spec_parse_u8(field_at(fields, 5)))
            &&& holds_value(spec_parse_decimal(field_at(fields, 6)))
        },
        HPR::spec_parse(fields) matches Ok(Some(record)) ==> {
            &&& forall|i: int| 0 <= i < 7 ==> !is_blank(#[trigger] field_at(fields, i))
            &&& Time::spec_parse_from_hhmmss(field_at(fields, 0)) == Ok::<
                Option<Time>,
                &'static str,
            >(Some(record.time))
            &&& spec_parse_decimal(field_at(fields, 1)) == Ok::<
                Option<DecimalModel>,
                &'static str,
            >(Some(record.heading))
            &&& spec_parse_decimal(field_at(fields, 2)) == Ok::<
                Option<DecimalModel>,
                &'static str,
            >(Some(record.pitch))
            &&& spec_parse_decimal(field_at(fields, 3)) == Ok::<
                Option<DecimalModel>,
                &'static str,
            >(Some(record.roll))
            &&& spec_parse_u8(field_at(fields, 4)) == Ok::<Option<u8>, &'static str>(
                Some(record.qf),
            )
            &&& spec_parse_u8(field_at(fields, 5)) == Ok::<Option<u8>, &'static str>(
                Some(record.no_sat),
            )
            &&& spec_parse_decimal(field_at(fields, 6)) == Ok::<
                Option<DecimalModel>,
                &'static str,
            >(Some(record.age))
            &&& record.stn_id == 0
        },
{
    if HPR::spec_parse(fields) is Ok {
        if HPR::spec_parse(fields) == Ok::<Option<HprModel>, &'static str>(None) {
            let blank = if is_blank(field_at(fields, 0)) {
                0int
            } else if is_blank(field_at(fields, 1)) {
                1int
            } else if is_blank(field_at(fields, 2)) {
                2int
            } else if is_blank(field_at(fields, 3)) {
                3int
            } else if is_blank(field_at(fields, 4)) {
                4int
            } else if is_blank(field_at(fields, 5)) {
                5int
            } else {
                6int
            };
            assert(is_blank(field_at(fields, blank)));
        } else {
            assert forall|i: int| 0 <= i < 7 implies !is_blank(#[trigger] field_at(fields, i)) by {
                if i == 0 {
                } else if i == 1 {
                } else if i == 2 {
                } else if i == 3 {
                } else if i == 4 {
                } else if i == 5 {
                } else {
                }
            }
        }
    }
}

/// A sentence is read by its first seven fields: the reserved field and
/// whatever follows it make no difference.
pub proof fn lemma_parse_reads_seven_fields(fields: Seq<Seq<char>>, other: Seq<Seq<char>>)
    requires
        forall|i: int| 0 <= i < 7 ==> field_at(fields, i) == field_at(other, i),
    ensures
        HPR::spec_parse(fields) == HPR::spec_parse(other),
        HPR::fields_read(fields) == HPR::fields_read(other),
{
    assert(field_at(fields, 0) == field_at(other, 0));
    assert(field_at(fields, 1) == field_at(other, 1));
    assert(field_at(fields, 2) == field_at(other, 2));
    assert(field_at(fields, 3) == field_at(other, 3));
    assert(field_at(fields, 4) == field_at(other, 4));
    assert(field_at(fields, 5) == field_at(other, 5));
    assert(field_at(fields, 6) == field_at(other, 6));
}

} // verus!
