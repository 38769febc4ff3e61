//! The date itself: a year, a month and a day, read from and written to
//! `YYYY-MM-DD` text.

use crate::errors::{DateErrors, Failure};
use crate::format::DateFormat;
use crate::scalars::{Day, Month, Year};
use crate::text::{
    chars_of, decimal, fields, lemma_concat_lacks, lemma_decimal_lacks,
    lemma_decimal_round_trip, lemma_fields_concat, lemma_fields_single,
    lemma_padded2_round_trip, lemma_replace_all_skips, number_within, padded2, parse_number,
    push_decimal, push_padded2, replace, replace_all, split, string_of,
};
use vstd::prelude::*;

verus! {

/// The last day that February is given.
pub const MAX_DAY_FEBR: u8 = 29;

/// The character between the fields of a date text.
pub const FIELD_SEPARATOR: char = '-';

/// A date: a year, a month and a day.
///
/// Months and days count from one. A date that `DateStr::new` or one of the
/// readers gave is a day of the calendar, where February has twenty-nine days
/// in every year. The sum or difference of two dates need not be one.
#[derive(Debug, PartialEq, Eq, Structural, Clone, Copy)]
pub struct DateStr {
    year: Year,
    month: Month,
    day: Day,
}

/// The three numbers that a date holds.
pub struct Ymd {
    /// The year.
    pub year: nat,
    /// The month.
    pub month: nat,
    /// The day.
    pub day: nat,
}

/// Whether `month` is a month of the year.
pub open spec fn is_month(month: nat) -> bool {
    1 <= month <= 12
}

/// The last day of `month`: twenty-nine for February, thirty for April, June,
/// September and November, thirty-one for the others.
pub open spec fn last_day_of(month: nat) -> nat
    recommends
        is_month(month),
{
    if month == 2 {
        29
    } else if month == 4 || month == 6 || month == 9 || month == 11 {
        30
    } else {
        31
    }
}

/// Whether `month` is a month of the year and `day` one of its days.
pub open spec fn is_day_of(month: nat, day: nat) -> bool {
    is_month(month) && 1 <= day <= last_day_of(month)
}

impl Ymd {
    /// Whether the three numbers name a day of the calendar.
    pub open spec fn is_calendar_day(self) -> bool {
        is_day_of(self.month, self.day)
    }
}

/// The text `YYYY-MM-DD` of a date: the year as it is, the month and the day
/// with two digits at least.
pub open spec fn iso_text(date: Ymd) -> Seq<char> {
    decimal(date.year).push(FIELD_SEPARATOR) + padded2(date.month).push(FIELD_SEPARATOR) + padded2(
        date.day,
    )
}

/// The date with the year `year` whose month and day are written in
/// `month_text` and `day_text`, or the reason why there is none. The month is
/// looked at first.
pub open spec fn date_of_parts(year: nat, month_text: Seq<char>, day_text: Seq<char>) -> Result<
    Ymd,
    Failure,
> {
    match number_within(month_text, u8::MAX as nat) {
        None => Err(Failure::InvalidParsing(month_text)),
        Some(month) => if !is_month(month) {
            Err(Failure::InvalidMonth { month: month as u8 })
        } else {
            match number_within(day_text, u8::MAX as nat) {
                None => Err(Failure::InvalidParsing(day_text)),
                Some(day) => if !is_day_of(month, day) {
                    Err(Failure::InvalidDay { day: day as u8 })
                } else {
                    Ok(Ymd { year, month, day })
                },
            }
        },
    }
}

/// Whether `s` has the three fields of a date: two dashes at least.
pub open spec fn has_date_fields(s: Seq<char>) -> bool {
    fields(s, FIELD_SEPARATOR).len() >= 3
}

/// The date that `s` writes, or the reason why it writes none.
///
/// The first three fields between dashes are the year, the month and the day;
/// further fields are not looked at. Each must be a number that its part can
/// hold, and the first that is not is named by `InvalidParsing`.
pub open spec fn date_of_text(s: Seq<char>) -> Result<Ymd, Failure> {
    let parts = fields(s, FIELD_SEPARATOR);
    match number_within(parts[0], u64::MAX as nat) {
        None => Err(Failure::InvalidParsing(parts[0])),
        Some(year) => date_of_parts(year, parts[1], parts[2]),
    }
}

/// The date that `s` writes when a year that cannot be read counts as the
/// year zero.
pub open spec fn date_of_text_or_year_zero(s: Seq<char>) -> Result<Ymd, Failure> {
    let parts = fields(s, FIELD_SEPARATOR);
    let year = match number_within(parts[0], u64::MAX as nat) {
        None => 0nat,
        Some(year) => year,
    };
    date_of_parts(year, parts[1], parts[2])
}

/// The text in which the year, the month and the day of `date` stand for
/// `YYYY`, `MM` and `DD` in `template`; they are put in in this order, each
/// without padding.
pub open spec fn formatted(date: Ymd, template: Seq<char>) -> Seq<char> {
    replace_all(
        replace_all(replace_all(template, "YYYY"@, decimal(date.year)), "MM"@, decimal(date.month)),
        "DD"@,
        decimal(date.day),
    )
}

/// What a reader returned, in numbers and sequences of characters.
pub open spec fn outcome(result: Result<DateStr, DateErrors>) -> Result<Ymd, Failure> {
    match result {
        Ok(date) => Ok(date@),
        Err(e) => Err(e@),
    }
}

impl View for DateStr {
    type V = Ymd;

    closed spec fn view(&self) -> Ymd {
        Ymd { year: self.year@, month: self.month@, day: self.day@ }
    }
}

impl DateStr {
    /// The date that holds the numbers of `date`.
    pub closed spec fn holding(date: Ymd) -> DateStr {
        DateStr {
            year: Year::holding(date.year),
            month: Month::holding(date.month),
            day: Day::holding(date.day),
        }
    }

    /// A date holds the numbers it was made of, as far as its parts can hold
    /// them.
    pub proof fn lemma_holding(date: Ymd)
        requires
            date.year <= u64::MAX,
            date.month <= u8::MAX,
            date.day <= u8::MAX,
        ensures
            DateStr::holding(date)@ == date,
    {
        Year::lemma_holding(date.year);
        Month::lemma_holding(date.month);
        Day::lemma_holding(date.day);
    }

    /// The date of the given parts, if it is a day of the calendar.
    ///
    /// A month outside `1..=12` gives `InvalidMonth`, and a day that is none
    /// of the month's days gives `InvalidDay`.
    pub fn new(year: Year, month: Month, day: Day) -> (out: Result<DateStr, DateErrors>)
        ensures
            match out {
                Ok(date) => is_day_of(month@, day@) && date@ == (Ymd {
                    year: year@,
                    month: month@,
                    day: day@,
                }),
                Err(e) => !is_day_of(month@, day@) && e@ == (if is_month(month@) {
                    Failure::InvalidDay { day: day@ as u8 }
                } else {
                    Failure::InvalidMonth { month: month@ as u8 }
                }),
            },
    {
        let (month_ok, day_ok): (bool, bool) = DateStr::check_date_constraints(
            month.value(),
            day.value(),
        );
        if !month_ok {
            return Err(DateErrors::InvalidMonth { month: month.value() });
        }
        if !day_ok {
            let err = DateErrors::InvalidDay { day: day.value() };
            return Err(err);
        }
        Ok(DateStr { year, month, day })
    }

    /// The date of parts that arithmetic has made, taken as they are.
    pub(crate) fn from_parts(year: Year, month: Month, day: Day) -> (out: DateStr)
        ensures
            out@ == (Ymd { year: year@, month: month@, day: day@ }),
    {
        DateStr { year, month, day }
    }

    /// Whether `month` is a month of the year, and whether `day` is one of the
    /// days of that month.
    pub fn check_date_constraints(month: u8, day: u8) -> (out: (bool, bool))
        ensures
            out.0 == is_month(month as nat),
            out.1 == is_day_of(month as nat, day as nat),
    {
        if !(1 <= month && month <= 12) {
            return (false, false);
        }
        let last: u8 = if month == 2 {
            MAX_DAY_FEBR
        } else if month == 4 || month == 6 || month == 9 || month == 11 {
            30
        } else {
            31
        };
        (true, 1 <= day && day <= last)
    }

    /// The year of the date.
    pub fn year(&self) -> (out: Year)
        ensures
            out@ == self@.year,
    {
        self.year
    }

    /// The month of the date.
    pub fn month(&self) -> (out: Month)
        ensures
            out@ == self@.month,
    {
        self.month
    }

    /// The day of the date.
    pub fn day(&self) -> (out: Day)
        ensures
            out@ == self@.day,
    {
        self.day
    }

    /// Whether `string` has the three fields of a date, which the readers
    /// `from_iso_str` and `try_from_iso_str` ask for.
    pub fn has_date_fields(string: &str) -> (out: bool)
        ensures
            out == has_date_fields(string@),
    {
        let sep_date: Vec<Vec<char>> = split(&chars_of(string), FIELD_SEPARATOR);
        sep_date.len() >= 3
    }

    /// The date with the year `year` whose month and day are written in
    /// `month_text` and `day_text`.
    fn from_fields(year: u64, month_text: &Vec<char>, day_text: &Vec<char>) -> (out: Result<
        DateStr,
        DateErrors,
    >)
        ensures
            outcome(out) == date_of_parts(year as nat, month_text@, day_text@),
    {
        let month: Month = match parse_number(month_text, u8::MAX as u64) {
            Some(m) => match Month::new(m as u8) {
                Ok(month) => month,
                Err(e) => {
                    return Err(e);
                },
            },
            None => {
                return Err(DateErrors::InvalidParsing(string_of(month_text)));
            },
        };
        let day: Day = match parse_number(day_text, u8::MAX as u64) {
            Some(d) => match Day::new(d as u8) {
                Ok(day) => day,
                Err(e) => {
                    return Err(e);
                },
            },
            None => {
                return Err(DateErrors::InvalidParsing(string_of(day_text)));
            },
        };
        DateStr::new(Year::new(year), month, day)
    }

    /// The date that `string` writes in the form `YYYY-MM-DD`.
    ///
    /// `string` must write a date: it has three fields between dashes, of
    /// which the second is a month and the third a day of that month. A year
    /// that cannot be read is the year zero.
    pub fn from_iso_str(string: &str) -> (out: DateStr)
        requires
            has_date_fields(string@),
            date_of_text_or_year_zero(string@) is Ok,
        ensures
            date_of_text_or_year_zero(string@) == Ok::<Ymd, Failure>(out@),
    {
        let sep_date: Vec<Vec<char>> = split(&chars_of(string), FIELD_SEPARATOR);
        let year: u64 = match parse_number(&sep_date[0], u64::MAX) {
            Some(year) => year,
            None => 0,
        };
        DateStr::from_fields(year, &sep_date[1], &sep_date[2]).unwrap()
    }

    /// The date that `string` writes in the form `YYYY-MM-DD`, or the reason
    /// why it writes none.
    ///
    /// `string` must have three fields between dashes. The year is looked at
    /// first, then the month, then the day: a field that is no number, or one
    /// too large for its part, gives `InvalidParsing` with that field; a
    /// month outside `1..=12` gives `InvalidMonth`; a day that is none of the
    /// month's days gives `InvalidDay`.
    pub fn try_from_iso_str(string: &str) -> (out: Result<DateStr, DateErrors>)
        requires
            has_date_fields(string@),
        ensures
            outcome(out) == date_of_text(string@),
    {
        let sep_date: Vec<Vec<char>> = split(&chars_of(string), FIELD_SEPARATOR);
        DateStr::from_split(&sep_date)
    }

    /// The date whose year, month and day are written in the first three of
    /// `parts`.
    pub(crate) fn from_split(parts: &Vec<Vec<char>>) -> (out: Result<DateStr, DateErrors>)
        requires
            parts@.len() >= 3,
        ensures
            outcome(out) == match number_within(parts@[0]@, u64::MAX as nat) {
                None => Err(Failure::InvalidParsing(parts@[0]@)),
                Some(year) => date_of_parts(year, parts@[1]@, parts@[2]@),
            },
    {
        let year: u64 = match parse_number(&parts[0], u64::MAX) {
            Some(year) => year,
            None => {
                return Err(DateErrors::InvalidParsing(string_of(&parts[0])));
            },
        };
        DateStr::from_fields(year, &parts[1], &parts[2])
    }

    /// The text `YYYY-MM-DD` of the date: the year as it is, the month and
    /// the day with two digits at least.
    pub fn to_string(&self) -> (out: String)
        ensures
            out@ == iso_text(self@),
    {
        let mut buf: Vec<char> = Vec::new();
        push_decimal(&mut buf, self.year.value());
        buf.push(FIELD_SEPARATOR);
        push_padded2(&mut buf, self.month.value() as u64);
        buf.push(FIELD_SEPARATOR);
        push_padded2(&mut buf, self.day.value() as u64);
        string_of(&buf)
    }

    /// The date written after `fmt`: the year, the month and the day stand
    /// where the template has `YYYY`, `MM` and `DD`, without padding, and the
    /// rest of the template stays.
    pub fn format(&self, fmt: DateFormat) -> (out: String)
        ensures
            out@ == formatted(self@, fmt.formatter@),
    {
        proof {
            reveal_strlit("YYYY");
            reveal_strlit("MM");
            reveal_strlit("DD");
        }
        let template = chars_of(fmt.formatter.as_str());
        let mut year: Vec<char> = Vec::new();
        push_decimal(&mut year, self.year.value());
        let mut month: Vec<char> = Vec::new();
        push_decimal(&mut month, self.month.value() as u64);
        let mut day: Vec<char> = Vec::new();
        push_decimal(&mut day, self.day.value() as u64);
        let with_year = replace(&template, &chars_of("YYYY"), &year);
        let with_month = replace(&with_year, &chars_of("MM"), &month);
        let self_fmtd = replace(&with_month, &chars_of("DD"), &day);
        string_of(&self_fmtd)
    }

    /// The date written after `fmt`, as `format` gives it. No format makes
    /// this fail.
    pub fn try_format(&self, fmt: DateFormat) -> (out: Result<String, DateErrors>)
        ensures
            out matches Ok(text) && text@ == formatted(self@, fmt.formatter@),
    {
        Ok(self.format(fmt))
    }

    /// The numbers of a date fit its parts.
    pub proof fn lemma_view_bounded(self)
        ensures
            self@.year <= u64::MAX,
            self@.month <= u8::MAX,
            self@.day <= u8::MAX,
    {
        self.year.lemma_view_bounded();
        self.month.lemma_view_bounded();
        self.day.lemma_view_bounded();
    }

    /// Two dates that hold the same numbers are the same date.
    pub proof fn lemma_view_injective(a: DateStr, b: DateStr)
        requires
            a@ == b@,
        ensures
            a == b,
    {
        Year::lemma_view_injective(a.year, b.year);
        Month::lemma_view_injective(a.month, b.month);
        Day::lemma_view_injective(a.day, b.day);
    }
}

/// Reading gives back what writing was given: the text `YYYY-MM-DD` of a day
/// of the calendar has the three fields of a date, and both readers find in
/// it the date that was written.
pub proof fn lemma_text_round_trip(date: Ymd)
    requires
        date.year <= u64::MAX,
        date.is_calendar_day(),
    ensures
        has_date_fields(iso_text(date)),
        date_of_text(iso_text(date)) == Ok::<Ymd, Failure>(date),
        date_of_text_or_year_zero(iso_text(date)) == Ok::<Ymd, Failure>(date),
{
    let y = decimal(date.year);
    let m = padded2(date.month);
    let d = padded2(date.day);
    let sep = FIELD_SEPARATOR;
    lemma_decimal_lacks(date.year, sep);
    lemma_decimal_lacks(date.month, sep);
    lemma_decimal_lacks(date.day, sep);
    lemma_fields_single(y, sep);
    lemma_fields_single(m, sep);
    lemma_fields_single(d, sep);
    lemma_fields_concat(m, d, sep);
    lemma_fields_concat(y, m.push(sep) + d, sep);
    assert(iso_text(date) =~= y.push(sep) + (m.push(sep) + d));
    lemma_decimal_round_trip(date.year);
    lemma_padded2_round_trip(date.month, u8::MAX as nat);
    lemma_padded2_round_trip(date.day, u8::MAX as nat);
}

/// Written after the template `YYYY-MM-DD`, a date is its year, its month and
/// its day with a dash between each two, none of them padded.
pub proof fn lemma_formatted_year_month_day(date: Ymd)
    ensures
        formatted(date, "YYYY-MM-DD"@) == decimal(date.year).push('-') + decimal(date.month).push(
            '-',
        ) + decimal(date.day),
{
    reveal_strlit("YYYY-MM-DD");
    reveal_strlit("YYYY");
    reveal_strlit("MM");
    reveal_strlit("DD");
    let y = decimal(date.year);
    let m = decimal(date.month);
    let d = decimal(date.day);
    let none = Seq::<char>::empty();
    let template = "YYYY-MM-DD"@;

    // The year takes the place of `YYYY`, and nothing after it begins with `Y`.
    let after_year = seq!['-', 'M', 'M', '-', 'D', 'D'];
    assert(template.take(4) =~= "YYYY"@);
    assert(template.skip(4) =~= after_year);
    assert(!after_year.contains('Y')) by {
        if after_year.contains('Y') {
            let k = choose|k: int| 0 <= k < after_year.len() && after_year[k] == 'Y';
        }
    }
    lemma_replace_all_skips(after_year, none, "YYYY"@, y);
    assert(after_year + none =~= after_year);
    let with_year = y + after_year;
    assert(replace_all(template, "YYYY"@, y) == with_year);

    // The month takes the place of `MM`: neither the year nor a dash begins with `M`.
    let before_month = y.push('-');
    let from_month = seq!['M', 'M', '-', 'D', 'D'];
    let after_month = seq!['-', 'D', 'D'];
    lemma_decimal_lacks(date.year, 'M');
    lemma_concat_lacks(y, seq!['-'], 'M');
    assert(y + seq!['-'] =~= before_month);
    assert(with_year =~= before_month + from_month);
    lemma_replace_all_skips(before_month, from_month, "MM"@, m);
    assert(from_month.take(2) =~= "MM"@);
    assert(from_month.skip(2) =~= after_month);
    assert(!after_month.contains('M')) by {
        if after_month.contains('M') {
            let k = choose|k: int| 0 <= k < after_month.len() && after_month[k] == 'M';
        }
    }
    lemma_replace_all_skips(after_month, none, "MM"@, m);
    assert(after_month + none =~= after_month);
    let with_month = before_month + (m + after_month);
    assert(replace_all(with_year, "MM"@, m) == with_month);

    // The day takes the place of `DD`: nothing before it begins with `D`.
    let before_day = before_month + m.push('-');
    let from_day = seq!['D', 'D'];
    lemma_decimal_lacks(date.year, 'D');
    lemma_decimal_lacks(date.month, 'D');
    lemma_concat_lacks(y, seq!['-'], 'D');
    lemma_concat_lacks(m, seq!['-'], 'D');
    assert(m + seq!['-'] =~= m.push('-'));
    lemma_concat_lacks(before_month, m.push('-'), 'D');
    assert(with_month =~= before_day + from_day);
    lemma_replace_all_skips(before_day, from_day, "DD"@, d);
    assert(from_day.take(2) =~= "DD"@);
    assert(from_day.skip(2) =~= none);
    assert(replace_all(none, "DD"@, d) == none);
    assert(replace_all(from_day, "DD"@, d) =~= d);
}

/// What a reader finds is a day of the calendar whose year fits the year's
/// sixty-four bits.
pub proof fn lemma_read_dates_are_calendar_days(s: Seq<char>)
    ensures
        date_of_text(s) matches Ok(date) ==> date.is_calendar_day() && date.year <= u64::MAX,
        date_of_text_or_year_zero(s) matches Ok(date) ==> date.is_calendar_day() && date.year
            <= u64::MAX,
{
}

/// The days of each month: a month of thirty-one days has every day from the
/// first to the thirty-first, February has none after the twenty-ninth, and
/// the other months have none after the thirtieth.
pub proof fn lemma_days_of_months(month: nat, day: nat)
    requires
        is_month(month),
    ensures
        month == 1 || month == 3 || month == 5 || month == 7 || month == 8 || month == 10 || month
            == 12 ==> (is_day_of(month, day) <==> 1 <= day <= 31),
        month == 4 || month == 6 || month == 9 || month == 11 ==> (is_day_of(month, day) <==> 1
            <= day <= 30),
        month == 2 ==> (is_day_of(month, day) <==> 1 <= day <= 29),
{
}

} // verus!
