//! Formats in which a date can be written out.

use crate::errors::{DateErrors, Failure};
use crate::text::{
    chars_of, fields, same_text, split, string_of, texts, uppercase, uppercased,
};
use vstd::prelude::*;

verus! {

/// The fields that a format must hold: the year, the month and the day.
pub const FORMATTER_OPTIONS: [&'static str; 3] = ["YYYY", "MM", "DD"];

/// The separator between the fields of a format where none is named.
pub const DEFAULT_SEPARATOR: char = '-';

/// How a date is to be written: a template in which `YYYY`, `MM` and `DD`
/// stand for the year, the month and the day.
#[derive(Debug)]
pub struct DateFormat {
    /// The template, in upper case.
    pub formatter: String,
}

/// Whether each of `YYYY`, `MM` and `DD` is one of `pieces`. Other pieces are
/// of no account.
pub open spec fn holds_every_field(pieces: Seq<Seq<char>>) -> bool {
    pieces.contains("YYYY"@) && pieces.contains("MM"@) && pieces.contains("DD"@)
}

/// The pieces of `template` between occurrences of `separator`, each in upper
/// case.
pub open spec fn upper_pieces(template: Seq<char>, separator: char) -> Seq<Seq<char>> {
    fields(template, separator).map_values(|piece: Seq<char>| uppercased(piece))
}

/// Whether `piece` is one of `pieces`.
fn is_among(piece: &str, pieces: &Vec<Vec<char>>) -> (out: bool)
    ensures
        out == texts(pieces@).contains(piece@),
{
    let wanted = chars_of(piece);
    let mut i: usize = 0;
    while i < pieces.len()
        invariant
            i <= pieces@.len(),
            wanted@ == piece@,
            forall|j: int| 0 <= j < i ==> texts(pieces@)[j] != piece@,
        decreases pieces@.len() - i,
    {
        assert(texts(pieces@)[i as int] == pieces@[i as int]@);
        if same_text(&pieces[i], &wanted) {
            return true;
        }
        i = i + 1;
    }
    false
}

impl DateFormat {
    /// The format with the template `template`, given the pieces into which
    /// the separator cuts it, all in upper case already: `FormatDateError`
    /// unless each of `YYYY`, `MM` and `DD` is one of the pieces.
    pub fn from_upper_pieces(template: String, pieces: &Vec<Vec<char>>) -> (out: Result<
        DateFormat,
        DateErrors,
    >)
        ensures
            match out {
                Ok(format) => holds_every_field(texts(pieces@)) && format.formatter@ == template@,
                Err(e) => !holds_every_field(texts(pieces@)) && e@ == Failure::FormatDateError,
            },
    {
        let mut k: usize = 0;
        while k < 3
            invariant
                k <= 3,
                forall|j: int| 0 <= j < k ==> texts(pieces@).contains(
                    #[trigger] FORMATTER_OPTIONS[j]@,
                ),
            decreases 3 - k,
        {
            if !is_among(FORMATTER_OPTIONS[k], pieces) {
                return Err(DateErrors::FormatDateError);
            }
            k = k + 1;
        }
        Ok(DateFormat { formatter: template })
    }

    /// The format that `format` describes, in upper case.
    ///
    /// `separator` cuts `format` into pieces, and a dash does where none is
    /// given. Each of `YYYY`, `MM` and `DD` must be one of the pieces, in
    /// upper or lower case; other pieces are let through. Without one of the
    /// three the result is `FormatDateError`.
    pub fn from_string(format: &str, separator: Option<char>) -> (out: Result<
        DateFormat,
        DateErrors,
    >)
        ensures
            match out {
                Ok(made) => holds_every_field(
                    upper_pieces(format@, separator.unwrap_or(DEFAULT_SEPARATOR)),
                ) && made.formatter@ == uppercased(format@),
                Err(e) => !holds_every_field(
                    upper_pieces(format@, separator.unwrap_or(DEFAULT_SEPARATOR)),
                ) && e@ == Failure::FormatDateError,
            },
    {
        let separator: char = match separator {
            Some(c) => c,
            None => DEFAULT_SEPARATOR,
        };
        let pieces = split(&chars_of(format), separator);
        let mut upper: Vec<Vec<char>> = Vec::new();
        let mut i: usize = 0;
        while i < pieces.len()
            invariant
                i <= pieces@.len(),
                texts(pieces@) == fields(format@, separator),
                texts(upper@) == upper_pieces(format@, separator).take(i as int),
            decreases pieces@.len() - i,
        {
            let piece = string_of(&pieces[i]);
            let ghost before = upper@;
            upper.push(chars_of(uppercase(piece.as_str()).as_str()));
            assert(texts(upper@) =~= texts(before).push(uppercased(pieces@[i as int]@)));
            i = i + 1;
        }
        assert(upper_pieces(format@, separator).take(i as int) =~= upper_pieces(
            format@,
            separator,
        ));
        DateFormat::from_upper_pieces(uppercase(format), &upper)
    }
}

} // verus!
