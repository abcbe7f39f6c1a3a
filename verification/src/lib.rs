//! Parsing of navigation sentences into typed records.
//!
//! A sentence arrives split into its comma-separated fields. Each kind of
//! sentence reads its fields in a fixed order, turns each into a value, and
//! gives a record when every field it needs holds one.

use vstd::prelude::*;

pub mod common;
pub mod datetime;
pub mod decimal;
pub mod fields;
pub mod hpr;
pub mod modes;
pub mod rot;
pub mod text;

verus! {

/// The talker that sent a sentence.
#[derive(Debug, PartialEq, Eq, Structural, Clone, Copy)]
pub enum Source {
    /// The USA Global Positioning System.
    GPS,
    /// The Russian Federation GLONASS.
    GLONASS,
    /// The European Union Galileo.
    Galileo,
    /// The Chinese Beidou.
    Beidou,
    /// A combination of several systems.
    GNSS,
}

} // verus!
