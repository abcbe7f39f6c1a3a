//! The rate of turn sentence.

use vstd::prelude::*;
use crate::common::{holds_value, parse_decimal, spec_parse_decimal, viewed};
use crate::decimal::{Decimal, DecimalModel};
use crate::fields::{field_at, is_blank, lemma_rest_after_next, rest_after, Fields};
use crate::modes::Status;
use crate::Source;

verus! {

/// Rate of turn of the vessel.
#[derive(Debug, PartialEq, Eq)]
pub struct ROT {
    /// Rate of turn, in degrees per minute.
    pub rate: Decimal,
}

/// The mathematical content of a `ROT`.
pub struct RotModel {
    pub rate: DecimalModel,
}

impl View for ROT {
    type V = RotModel;

    open spec fn view(&self) -> RotModel {
        RotModel { rate: self.rate@ }
    }
}

impl Clone for ROT {
    fn clone(&self) -> (r: ROT)
        ensures
            r@ == self@,
    {
        ROT { rate: self.rate.clone() }
    }
}

impl ROT {
    /// What `parse` returns for the fields of a sentence. The fields are
    /// the rate and a status. A malformed rate gives its error; a sentence
    /// without a status field is an error; otherwise the result is the
    /// record, or `None` if the rate is blank. What the status says does
    /// not matter.
    pub open spec fn spec_parse(fields: Seq<Seq<char>>) -> Result<Option<RotModel>, &'static str> {
        match spec_parse_decimal(field_at(fields, 0)) {
            Err(e) => Err(e),
            Ok(rate) => if field_at(fields, 1) is None {
                Err("Status field is mandatory for ROT sentence!")
            } else {
                match rate {
                    Some(rate) => Ok(Some(RotModel { rate })),
                    None => Ok(None),
                }
            },
        }
    }

    /// The number of fields that `parse` reads: one if the rate is
    /// malformed, and two otherwise.
    pub open spec fn fields_read(fields: Seq<Seq<char>>) -> int {
        if spec_parse_decimal(field_at(fields, 0)) is Err {
            1
        } else {
            2
        }
    }

    /// Reads the fields of a rate of turn sentence, in their order.
    #[allow(unused_variables)]
    pub fn parse(source: Source, fields: &mut Fields<'_>) -> (r: Result<Option<ROT>, &'static str>)
        ensures
            viewed(r) == ROT::spec_parse(old(fields)@),
            r matches Ok(Some(record)) ==> record@.rate.well_formed(),
            final(fields)@ == rest_after(old(fields)@, ROT::fields_read(old(fields)@)),
    {
        proof {
            lemma_rest_after_next(fields@, 0);
            lemma_rest_after_next(fields@, 1);
        }
        let rate = match parse_decimal(fields.next()) {
            Ok(rate) => rate,
            Err(e) => { return Err(e); },
        };
        match fields.next() {
            Some(f_status) => {
                if let Err(e) = Status::from_str(f_status) {
                    return Err(e);
                }
            },
            None => { return Err("Status field is mandatory for ROT sentence!"); },
        }

        if let Some(rate) = rate {
            Ok(Some(ROT { rate }))
        } else {
            Ok(None)
        }
    }
}

/// Parsing is a function of the fields alone: any two results of parsing
/// the same fields are the same, value for value.
pub proof fn lemma_parse_repeatable(
    fields: Seq<Seq<char>>,
    first: Result<Option<ROT>, &'static str>,
    second: Result<Option<ROT>, &'static str>,
)
    requires
        viewed(first) == ROT::spec_parse(fields),
        viewed(second) == ROT::spec_parse(fields),
    ensures
        viewed(first) == viewed(second),
{
}

/// The status is a gate and no more: two sentences with the same rate
/// that both have a status field, or both have none, read the same.
pub proof fn lemma_status_is_a_gate(fields: Seq<Seq<char>>, other: Seq<Seq<char>>)
    requires
        field_at(fields, 0) == field_at(other, 0),
        field_at(fields, 1) is Some <==> field_at(other, 1) is Some,
    ensures
        ROT::spec_parse(fields) == ROT::spec_parse(other),
        ROT::fields_read(fields) == ROT::fields_read(other),
{
}

/// A record comes out exactly when the rate holds a value and a status
/// field is there; a sentence whose rate is well formed and which has no
/// status field is an error, and one with a blank rate and a status is
/// `None`.
pub proof fn lemma_parse_outcome(fields: Seq<Seq<char>>)
    ensures
        holds_value(ROT::spec_parse(fields)) <==> {
            &&& holds_value(spec_parse_decimal(field_at(fields, 0)))
            &&& field_at(fields, 1) is Some
        },
        ROT::spec_parse(fields) matches Ok(Some(record)) ==> spec_parse_decimal(
            field_at(fields, 0),
        ) == Ok::<Option<DecimalModel>, &'static str>(Some(record.rate)),
        ROT::spec_parse(fields) == Ok::<Option<RotModel>, &'static str>(None) <==> {
            &&& is_blank(field_at(fields, 0))
            &&& field_at(fields, 1) is Some
        },
        ROT::spec_parse(fields) is Err <==> {
            ||| spec_parse_decimal(field_at(fields, 0)) is Err
            ||| field_at(fields, 1) is None
        },
{
}

} // verus!
