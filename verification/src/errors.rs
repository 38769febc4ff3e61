//! The reasons for which a date, one of its parts or a format is refused.

use crate::text::{decimal, push_decimal, push_str, string_of};
use vstd::prelude::*;

verus! {

/// Why a date, one of its parts or a format was refused.
#[derive(Debug)]
pub enum DateErrors {
    /// The day lies outside `1..=31`, or beyond the last day of its month.
    InvalidDay {
        /// The day that was refused.
        day: u8,
    },
    /// The month lies outside `1..=12`.
    InvalidMonth {
        /// The month that was refused.
        month: u8,
    },
    /// A format lacks one of the fields `YYYY`, `MM` and `DD`.
    FormatDateError,
    /// A year could not be subtracted without leading before the year zero,
    /// or not be added without leading beyond the last year that sixty-four
    /// bits hold. The year is that of the second operand.
    InvalidYear(u64),
    /// A field of a date text is not a number that its part can hold, or the
    /// text has no three fields. The string is that field, or the whole text.
    InvalidParsing(String),
}

/// What a `DateErrors` value says, with texts as sequences of characters.
pub enum Failure {
    /// The day that was refused.
    InvalidDay { day: u8 },
    /// The month that was refused.
    InvalidMonth { month: u8 },
    /// A format lacks a field.
    FormatDateError,
    /// The year that was refused.
    InvalidYear(u64),
    /// The text that is no number.
    InvalidParsing(Seq<char>),
}

impl Failure {
    /// The sentence that describes the failure.
    pub open spec fn message(self) -> Seq<char> {
        match self {
            Failure::InvalidDay { day } => "Invalid Day: provided "@ + decimal(day as nat),
            Failure::InvalidMonth { month } => "Invalid Month: provided "@ + decimal(month as nat),
            Failure::FormatDateError => "Format not recognized"@,
            Failure::InvalidYear(year) => "Invalif year provided: "@ + decimal(year as nat),
            Failure::InvalidParsing(text) => "Cannot parse "@ + text + ": not a number..."@,
        }
    }
}

impl View for DateErrors {
    type V = Failure;

    open spec fn view(&self) -> Failure {
        match *self {
            DateErrors::InvalidDay { day } => Failure::InvalidDay { day },
            DateErrors::InvalidMonth { month } => Failure::InvalidMonth { month },
            DateErrors::FormatDateError => Failure::FormatDateError,
            DateErrors::InvalidYear(year) => Failure::InvalidYear(year),
            DateErrors::InvalidParsing(text) => Failure::InvalidParsing(text@),
        }
    }
}

impl DateErrors {
    /// The sentence that describes the error.
    pub fn to_string(&self) -> (out: String)
        ensures
            out@ == self@.message(),
    {
        let mut buf: Vec<char> = Vec::new();
        match self {
            DateErrors::InvalidDay { day } => {
                push_str(&mut buf, "Invalid Day: provided ");
                push_decimal(&mut buf, *day as u64);
            },
            DateErrors::InvalidMonth { month } => {
                push_str(&mut buf, "Invalid Month: provided ");
                push_decimal(&mut buf, *month as u64);
            },
            DateErrors::FormatDateError => {
                push_str(&mut buf, "Format not recognized");
            },
            DateErrors::InvalidYear(year) => {
                push_str(&mut buf, "Invalif year provided: ");
                push_decimal(&mut buf, *year);
            },
            DateErrors::InvalidParsing(text) => {
                push_str(&mut buf, "Cannot parse ");
                push_str(&mut buf, text.as_str());
                push_str(&mut buf, ": not a number...");
            },
        }
        string_of(&buf)
    }
}

} // verus!
