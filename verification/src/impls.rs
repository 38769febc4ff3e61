//! Conversions between texts and dates, and the sum and difference of dates.

use crate::date::{
    date_of_text, date_of_text_or_year_zero, has_date_fields, iso_text, outcome, DateStr, Ymd,
    FIELD_SEPARATOR,
};
use crate::errors::{DateErrors, Failure};
use crate::scalars::{
    day_difference, day_sum, lemma_borrowed, lemma_carried, month_difference, month_sum, Year,
};
use crate::text::{chars_of, split};
use vstd::prelude::*;
use vstd::std_specs::convert::{FromSpecImpl, TryFromSpecImpl};
use vstd::std_specs::ops::{AddSpecImpl, SubSpecImpl};

verus! {

/// Texts that can be read as a date.
pub trait Into<T> {
    /// Whether the text has the three fields of a date.
    spec fn has_date_fields(&self) -> bool;

    /// Whether the text writes a date, a year that cannot be read counting as
    /// the year zero.
    spec fn writes_date(&self) -> bool;

    /// Whether `date` is the date that the text writes, a year that cannot be
    /// read counting as the year zero.
    spec fn is_read_as(&self, date: T) -> bool;

    /// Whether `result` tells what the text writes: the date, or the reason
    /// why it writes none.
    spec fn is_tried_as(&self, result: Result<T, DateErrors>) -> bool;

    /// The date that the text writes, which it must do.
    fn to_datestr(&self) -> (out: T)
        requires
            self.has_date_fields(),
            self.writes_date(),
        ensures
            self.is_read_as(out),
    ;

    /// The date that the text writes, or the reason why it writes none. The
    /// text must have the three fields of a date.
    fn try_to_datestr(&self) -> (out: Result<T, DateErrors>)
        requires
            self.has_date_fields(),
        ensures
            self.is_tried_as(out),
    ;
}

impl Into<DateStr> for String {
    open spec fn has_date_fields(&self) -> bool {
        has_date_fields(self@)
    }

    open spec fn writes_date(&self) -> bool {
        date_of_text_or_year_zero(self@) is Ok
    }

    open spec fn is_read_as(&self, date: DateStr) -> bool {
        date_of_text_or_year_zero(self@) == Ok::<Ymd, Failure>(date@)
    }

    open spec fn is_tried_as(&self, result: Result<DateStr, DateErrors>) -> bool {
        outcome(result) == date_of_text(self@)
    }

    fn to_datestr(&self) -> (out: DateStr) {
        DateStr::from_iso_str(self.as_str())
    }

    fn try_to_datestr(&self) -> (out: Result<DateStr, DateErrors>) {
        DateStr::try_from_iso_str(self.as_str())
    }
}

impl Into<DateStr> for str {
    open spec fn has_date_fields(&self) -> bool {
        has_date_fields(self@)
    }

    open spec fn writes_date(&self) -> bool {
        date_of_text_or_year_zero(self@) is Ok
    }

    open spec fn is_read_as(&self, date: DateStr) -> bool {
        date_of_text_or_year_zero(self@) == Ok::<Ymd, Failure>(date@)
    }

    open spec fn is_tried_as(&self, result: Result<DateStr, DateErrors>) -> bool {
        outcome(result) == date_of_text(self@)
    }

    fn to_datestr(&self) -> (out: DateStr) {
        DateStr::from_iso_str(self)
    }

    fn try_to_datestr(&self) -> (out: Result<DateStr, DateErrors>) {
        DateStr::try_from_iso_str(self)
    }
}

/// What `DateStr::try_from` makes of the text `s`: the date that it writes,
/// or the reason why it writes none, which for a text without the three
/// fields of a date is `InvalidParsing` with the whole text.
pub open spec fn date_of_any_text(s: Seq<char>) -> Result<Ymd, Failure> {
    if has_date_fields(s) {
        date_of_text(s)
    } else {
        Err(Failure::InvalidParsing(s))
    }
}

/// `try_from` states in its own `ensures` what it returns. An error may hold
/// a string, and of a string only the characters are specified, so no value
/// of `try_from_spec` can be claimed to equal the result.
impl TryFromSpecImpl<String> for DateStr {
    open spec fn obeys_try_from_spec() -> bool {
        false
    }

    open spec fn try_from_spec(v: String) -> Result<DateStr, DateErrors> {
        arbitrary()
    }
}

/// Reads a date from a text of any shape: a text without the three fields of
/// a date is refused like a field that is no number.
impl TryFrom<String> for DateStr {
    type Error = DateErrors;

    fn try_from(value: String) -> (out: Result<DateStr, DateErrors>)
        ensures
            outcome(out) == date_of_any_text(value@),
    {
        let split: Vec<Vec<char>> = split(&chars_of(value.as_str()), FIELD_SEPARATOR);
        if split.len() < 3 {
            return Err(DateErrors::InvalidParsing(value));
        }
        DateStr::from_split(&split)
    }
}

/// `from` states in its own `ensures` what it returns. Of a string only the
/// characters are specified, so no value of `from_spec` can be claimed to
/// equal the result.
impl FromSpecImpl<DateStr> for String {
    open spec fn obeys_from_spec() -> bool {
        false
    }

    open spec fn from_spec(v: DateStr) -> String {
        arbitrary()
    }
}

/// Writes a date as `YYYY-MM-DD`.
impl From<DateStr> for String {
    fn from(value: DateStr) -> (out: String)
        ensures
            out@ == iso_text(value@),
    {
        value.to_string()
    }
}

/// The sum of two dates, part by part: days carry into months at thirty,
/// months into years at twelve.
pub open spec fn date_sum(a: Ymd, b: Ymd) -> Ymd {
    let (day, months_from_day) = day_sum(a.day, b.day);
    let (months, years) = month_sum(a.month, b.month);
    let (month, more_years) = month_sum(months, months_from_day);
    Ymd { year: a.year + b.year + years + more_years, month, day }
}

/// The year of the difference of two dates, which is negative where the
/// difference would lie before the year zero.
pub open spec fn year_of_difference(a: Ymd, b: Ymd) -> int {
    let (day, months_from_day) = day_difference(a.day, b.day);
    let (months, years) = month_difference(a.month, b.month);
    let (month, more_years) = month_difference(months, months_from_day);
    a.year - b.year - years - more_years
}

/// The difference of two dates, part by part: days borrow from months by
/// thirty, months from years by twelve.
pub open spec fn date_difference(a: Ymd, b: Ymd) -> Ymd
    recommends
        year_of_difference(a, b) >= 0,
{
    let (day, months_from_day) = day_difference(a.day, b.day);
    let (months, years) = month_difference(a.month, b.month);
    let (month, more_years) = month_difference(months, months_from_day);
    Ymd { year: year_of_difference(a, b) as nat, month, day }
}

/// The days that a date counts when a month has thirty days and a year
/// twelve months.
pub open spec fn days_counted(date: Ymd) -> nat {
    date.day + 30 * date.month + 360 * date.year
}

/// Adding dates keeps the count of days: the sum counts as many days as the
/// two dates together.
pub proof fn lemma_sum_keeps_days(a: Ymd, b: Ymd)
    ensures
        days_counted(date_sum(a, b)) == days_counted(a) + days_counted(b),
{
    let (day, months_from_day) = day_sum(a.day, b.day);
    let (months, years) = month_sum(a.month, b.month);
    lemma_carried(a.day + b.day, 30);
    lemma_carried(a.month + b.month, 12);
    lemma_carried(months + months_from_day, 12);
}

/// Subtracting dates keeps the count of days: the difference counts as many
/// days as the first date less those of the second.
pub proof fn lemma_difference_keeps_days(a: Ymd, b: Ymd)
    requires
        year_of_difference(a, b) >= 0,
    ensures
        days_counted(date_difference(a, b)) == days_counted(a) - days_counted(b),
{
    let (day, months_from_day) = day_difference(a.day, b.day);
    let (months, years) = month_difference(a.month, b.month);
    lemma_borrowed(a.day - b.day, 30);
    lemma_borrowed(a.month - b.month, 12);
    lemma_borrowed(months - months_from_day, 12);
}

/// The sum of two days of the calendar has a month of the year and a day from
/// the first to the thirtieth, which need not be a day of that month.
pub proof fn lemma_sum_in_range(a: Ymd, b: Ymd)
    requires
        a.is_calendar_day(),
        b.is_calendar_day(),
    ensures
        1 <= date_sum(a, b).month <= 12,
        1 <= date_sum(a, b).day <= 30,
        a.year + b.year <= date_sum(a, b).year <= a.year + b.year + 2,
{
    let (day, months_from_day) = day_sum(a.day, b.day);
    let (months, years) = month_sum(a.month, b.month);
    lemma_carried(a.day + b.day, 30);
    lemma_carried(a.month + b.month, 12);
    lemma_carried(months + months_from_day, 12);
}

/// The difference of two days of the calendar has a month of at most twelve
/// and a day of at most thirty, either of which may be zero.
pub proof fn lemma_difference_in_range(a: Ymd, b: Ymd)
    requires
        a.is_calendar_day(),
        b.is_calendar_day(),
    ensures
        date_difference(a, b).month <= 12,
        date_difference(a, b).day <= 30,
        a.year - b.year - 2 <= year_of_difference(a, b) <= a.year - b.year,
{
    let (day, months_from_day) = day_difference(a.day, b.day);
    let (months, years) = month_difference(a.month, b.month);
    lemma_borrowed(a.day - b.day, 30);
    lemma_borrowed(a.month - b.month, 12);
    lemma_borrowed(months - months_from_day, 12);
}

impl AddSpecImpl for DateStr {
    open spec fn obeys_add_spec() -> bool {
        true
    }

    open spec fn add_req(self, rhs: DateStr) -> bool {
        date_sum(self@, rhs@).year <= u64::MAX
    }

    open spec fn add_spec(self, rhs: DateStr) -> DateStr {
        DateStr::holding(date_sum(self@, rhs@))
    }
}

/// The sum of two dates. Its year must fit the year's sixty-four bits.
///
/// The sum need not be a day of the calendar: it may fall on the thirtieth of
/// February.
impl core::ops::Add for DateStr {
    type Output = DateStr;

    fn add(self, rhs: DateStr) -> (out: DateStr)
        ensures
            out@ == date_sum(self@, rhs@),
    {
        let out = self.checked_add(rhs).unwrap();
        proof {
            DateStr::lemma_holding(date_sum(self@, rhs@));
            DateStr::lemma_view_injective(out, DateStr::holding(date_sum(self@, rhs@)));
        }
        out
    }
}

impl SubSpecImpl for DateStr {
    open spec fn obeys_sub_spec() -> bool {
        true
    }

    open spec fn sub_req(self, rhs: DateStr) -> bool {
        year_of_difference(self@, rhs@) >= 0
    }

    open spec fn sub_spec(self, rhs: DateStr) -> DateStr {
        DateStr::holding(date_difference(self@, rhs@))
    }
}

/// The difference of two dates. Its year must not lie before the year zero.
///
/// The difference need not be a day of the calendar: the difference of a date
/// and itself has the month zero and the day zero.
impl core::ops::Sub for DateStr {
    type Output = DateStr;

    fn sub(self, rhs: DateStr) -> (out: DateStr)
        ensures
            out@ == date_difference(self@, rhs@),
    {
        let out = self.checked_sub(rhs).unwrap();
        proof {
            out.lemma_view_bounded();
            DateStr::lemma_holding(date_difference(self@, rhs@));
            DateStr::lemma_view_injective(out, DateStr::holding(date_difference(self@, rhs@)));
        }
        out
    }
}

impl DateStr {
    /// The sum of two dates, or `InvalidYear` with the year of `rhs` where
    /// the year of the sum does not fit the year's sixty-four bits.
    pub fn checked_add(self, rhs: DateStr) -> (out: Result<DateStr, DateErrors>)
        ensures
            outcome(out) == if date_sum(self@, rhs@).year <= u64::MAX {
                Ok::<Ymd, Failure>(date_sum(self@, rhs@))
            } else {
                Err(Failure::InvalidYear(rhs@.year as u64))
            },
    {
        let (day, months_from_day) = self.day() + rhs.day();
        let (months, years) = self.month() + rhs.month();
        let (month, more_years) = months + months_from_day;
        let carried: Year = years + more_years;
        let year: Year = match self.year().checked_add(rhs.year()) {
            Ok(year) => match year.checked_add(carried) {
                Ok(year) => year,
                Err(_) => {
                    return Err(DateErrors::InvalidYear(rhs.year().value()));
                },
            },
            Err(e) => {
                return Err(e);
            },
        };
        Ok(DateStr::from_parts(year, month, day))
    }

    /// The difference of two dates, or `InvalidYear` with the year of `rhs`
    /// where the difference would lie before the year zero.
    pub fn checked_sub(self, rhs: DateStr) -> (out: Result<DateStr, DateErrors>)
        ensures
            outcome(out) == if year_of_difference(self@, rhs@) >= 0 {
                Ok::<Ymd, Failure>(date_difference(self@, rhs@))
            } else {
                Err(Failure::InvalidYear(rhs@.year as u64))
            },
    {
        let (day, months_from_day) = self.day() - rhs.day();
        let (months, years) = self.month() - rhs.month();
        let (month, more_years) = months - months_from_day;
        let borrowed: Year = years + more_years;
        let year: Year = match self.year().checked_sub(rhs.year()) {
            Ok(year) => match year.checked_sub(borrowed) {
                Ok(year) => year,
                Err(_) => {
                    return Err(DateErrors::InvalidYear(rhs.year().value()));
                },
            },
            Err(e) => {
                return Err(e);
            },
        };
        Ok(DateStr::from_parts(year, month, day))
    }
}

} // verus!
