//! The three parts of a date, each a small validated number, and their
//! arithmetic with carry and borrow.
//!
//! A month counts thirty days and a year twelve months whenever parts are
//! added or subtracted; real month lengths and leap years play no role.

use crate::errors::{DateErrors, Failure};
use crate::text::{decimal, push_decimal, string_of};
use vstd::prelude::*;
use vstd::std_specs::ops::{AddSpecImpl, SubSpecImpl};

verus! {

/// The days that one month counts in arithmetic.
pub const DAYS_PER_MONTH: u8 = 30;

/// The months that one year counts in arithmetic.
pub const MONTHS_PER_YEAR: u8 = 12;

/// A sum brought back into `1..=modulus`, and the number of times `modulus`
/// had to be taken away for that. A sum that does not exceed `modulus` stays
/// as it is, zero included.
pub open spec fn carried(sum: nat, modulus: nat) -> (nat, nat)
    recommends
        modulus > 0,
{
    if sum <= modulus {
        (sum, 0)
    } else {
        (((sum - 1) % (modulus as int) + 1) as nat, ((sum - 1) / (modulus as int)) as nat)
    }
}

/// A difference brought up into `1..=modulus`, and the number of times
/// `modulus` had to be added for that. A difference that is not negative stays
/// as it is, zero included, and borrows nothing.
pub open spec fn borrowed(difference: int, modulus: nat) -> (nat, nat)
    recommends
        modulus > 0,
{
    if difference >= 0 {
        (difference as nat, 0)
    } else {
        (
            (modulus - (-difference) % (modulus as int)) as nat,
            ((-difference) / (modulus as int) + 1) as nat,
        )
    }
}

/// Carrying keeps the total: what is left and what was carried make up the
/// sum. Once anything is carried, what is left lies in `1..=modulus`, and
/// nothing is carried from a sum of at most `modulus`.
pub proof fn lemma_carried(sum: nat, modulus: nat)
    requires
        modulus > 0,
    ensures
        carried(sum, modulus).0 + modulus * carried(sum, modulus).1 == sum,
        carried(sum, modulus).1 == 0 <==> sum <= modulus,
        carried(sum, modulus).1 > 0 ==> 1 <= carried(sum, modulus).0 <= modulus,
{
    if sum > modulus {
        let m = modulus as int;
        let x = sum - 1;
        assert(x == m * (x / m) + x % m && 0 <= x % m < m) by (nonlinear_arith)
            requires
                m > 0,
                x >= 0,
        ;
        assert(x / m >= 1) by (nonlinear_arith)
            requires
                x >= m,
                m > 0,
        ;
    }
}

/// Borrowing keeps the total: what is left, less what was borrowed, is the
/// difference. Once anything is borrowed, what is left lies in `1..=modulus`,
/// and nothing is borrowed for a difference that is not negative.
pub proof fn lemma_borrowed(difference: int, modulus: nat)
    requires
        modulus > 0,
    ensures
        borrowed(difference, modulus).0 - modulus * borrowed(difference, modulus).1 == difference,
        borrowed(difference, modulus).1 == 0 <==> difference >= 0,
        borrowed(difference, modulus).1 > 0 ==> 1 <= borrowed(difference, modulus).0 <= modulus,
{
    if difference < 0 {
        let m = modulus as int;
        let x = -difference;
        assert(x == m * (x / m) + x % m && 0 <= x % m < m && x / m >= 0) by (nonlinear_arith)
            requires
                m > 0,
                x >= 0,
        ;
        assert(m * (x / m + 1) == m * (x / m) + m) by (nonlinear_arith);
    }
}

/// The sum of two days: what is left in the month, and the months carried.
pub open spec fn day_sum(a: nat, b: nat) -> (nat, nat) {
    carried(a + b, DAYS_PER_MONTH as nat)
}

/// The difference of two days: what is left in the month, and the months
/// borrowed.
pub open spec fn day_difference(a: nat, b: nat) -> (nat, nat) {
    borrowed(a - b, DAYS_PER_MONTH as nat)
}

/// The sum of two months: what is left in the year, and the years carried.
pub open spec fn month_sum(a: nat, b: nat) -> (nat, nat) {
    carried(a + b, MONTHS_PER_YEAR as nat)
}

/// The difference of two months: what is left in the year, and the years
/// borrowed.
pub open spec fn month_difference(a: nat, b: nat) -> (nat, nat) {
    borrowed(a - b, MONTHS_PER_YEAR as nat)
}

/// A year: any number from zero up.
#[derive(Debug, PartialEq, Eq, Structural, Clone, Copy)]
pub struct Year(u64);

/// A month of the year, `1` for January to `12` for December, or a count of
/// months that arithmetic on days has carried or borrowed.
///
/// `Month::new` gives months of the year only. Arithmetic may leave a zero.
#[derive(Debug, PartialEq, Eq, Structural, Clone, Copy)]
pub struct Month(u8);

/// A day of the month, `1` to `31`.
///
/// `Day::new` gives days of the month only. Subtraction may leave a zero.
#[derive(Debug, PartialEq, Eq, Structural, Clone, Copy)]
pub struct Day(u8);

impl View for Year {
    type V = nat;

    closed spec fn view(&self) -> nat {
        self.0 as nat
    }
}

impl View for Month {
    type V = nat;

    closed spec fn view(&self) -> nat {
        self.0 as nat
    }
}

impl View for Day {
    type V = nat;

    closed spec fn view(&self) -> nat {
        self.0 as nat
    }
}

impl Year {
    /// The year that holds the number `value`.
    pub closed spec fn holding(value: nat) -> Year {
        Year(value as u64)
    }

    /// The year that holds a number has that number, if the number fits.
    pub proof fn lemma_holding(value: nat)
        requires
            value <= u64::MAX,
        ensures
            Year::holding(value)@ == value,
    {
    }

    /// The year `value`.
    pub fn new(value: u64) -> (out: Year)
        ensures
            out@ == value,
    {
        Year(value)
    }

    /// The number of the year.
    pub fn value(&self) -> (out: u64)
        ensures
            out == self@,
    {
        self.0
    }

    /// The decimal text of the year, without padding.
    pub fn to_string(&self) -> (out: String)
        ensures
            out@ == decimal(self@),
    {
        let mut buf: Vec<char> = Vec::new();
        push_decimal(&mut buf, self.0);
        string_of(&buf)
    }

    /// The year that lies `rhs` years after this one, or `InvalidYear` with
    /// `rhs` where that year does not fit sixty-four bits.
    pub fn checked_add(self, rhs: Year) -> (out: Result<Year, DateErrors>)
        ensures
            match out {
                Ok(year) => self@ + rhs@ <= u64::MAX && year@ == self@ + rhs@,
                Err(e) => self@ + rhs@ > u64::MAX && e@ == Failure::InvalidYear(rhs@ as u64),
            },
    {
        if self.0 <= u64::MAX - rhs.0 {
            Ok(Year(self.0 + rhs.0))
        } else {
            Err(DateErrors::InvalidYear(rhs.0))
        }
    }

    /// The year that lies `rhs` years before this one, or `InvalidYear` with
    /// `rhs` where that would be before the year zero.
    pub fn checked_sub(self, rhs: Year) -> (out: Result<Year, DateErrors>)
        ensures
            match out {
                Ok(year) => self@ >= rhs@ && year@ == self@ - rhs@,
                Err(e) => self@ < rhs@ && e@ == Failure::InvalidYear(rhs@ as u64),
            },
    {
        if self.0 >= rhs.0 {
            Ok(Year(self.0 - rhs.0))
        } else {
            Err(DateErrors::InvalidYear(rhs.0))
        }
    }

    /// The number of a year fits sixty-four bits.
    pub proof fn lemma_view_bounded(self)
        ensures
            self@ <= u64::MAX,
    {
    }

    /// Two years that hold the same number are the same year.
    pub proof fn lemma_view_injective(a: Year, b: Year)
        requires
            a@ == b@,
        ensures
            a == b,
    {
    }
}

impl Month {
    /// The month that holds the number `value`.
    pub closed spec fn holding(value: nat) -> Month {
        Month(value as u8)
    }

    /// The month that holds a number has that number, if the number fits.
    pub proof fn lemma_holding(value: nat)
        requires
            value <= u8::MAX,
        ensures
            Month::holding(value)@ == value,
    {
    }

    #[verifier::type_invariant]
    spec fn bounded(self) -> bool {
        self.0 <= 12
    }

    /// The month `value` of the year, or `InvalidMonth` with `value` where it
    /// lies outside `1..=12`.
    pub fn new(value: u8) -> (out: Result<Month, DateErrors>)
        ensures
            match out {
                Ok(month) => 1 <= value <= 12 && month@ == value,
                Err(e) => !(1 <= value <= 12) && e@ == (Failure::InvalidMonth { month: value }),
            },
    {
        if !(1 <= value && value <= 12) {
            return Err(DateErrors::InvalidMonth { month: value });
        }
        Ok(Month(value))
    }

    /// The month or count of months `value`, taken as it is.
    pub(crate) fn new_unchecked(value: u8) -> (out: Month)
        requires
            value <= 12,
        ensures
            out@ == value,
    {
        Month(value)
    }

    /// The number of the month. No month exceeds twelve.
    pub fn value(&self) -> (out: u8)
        ensures
            out == self@,
            out <= 12,
    {
        proof {
            use_type_invariant(self);
        }
        self.0
    }

    /// The decimal text of the month, without padding.
    pub fn to_string(&self) -> (out: String)
        ensures
            out@ == decimal(self@),
    {
        let mut buf: Vec<char> = Vec::new();
        push_decimal(&mut buf, self.0 as u64);
        string_of(&buf)
    }

    /// The number of a month fits eight bits.
    pub proof fn lemma_view_bounded(self)
        ensures
            self@ <= u8::MAX,
    {
    }

    /// Two months that hold the same number are the same month.
    pub proof fn lemma_view_injective(a: Month, b: Month)
        requires
            a@ == b@,
        ensures
            a == b,
    {
    }
}

impl Day {
    /// The day that holds the number `value`.
    pub closed spec fn holding(value: nat) -> Day {
        Day(value as u8)
    }

    /// The day that holds a number has that number, if the number fits.
    pub proof fn lemma_holding(value: nat)
        requires
            value <= u8::MAX,
        ensures
            Day::holding(value)@ == value,
    {
    }

    #[verifier::type_invariant]
    spec fn bounded(self) -> bool {
        self.0 <= 31
    }

    /// The day `value` of a month, or `InvalidDay` with `value` where it lies
    /// outside `1..=31`.
    pub fn new(value: u8) -> (out: Result<Day, DateErrors>)
        ensures
            match out {
                Ok(day) => 1 <= value <= 31 && day@ == value,
                Err(e) => !(1 <= value <= 31) && e@ == (Failure::InvalidDay { day: value }),
            },
    {
        if !(1 <= value && value <= 31) {
            let err = DateErrors::InvalidDay { day: value };
            return Err(err);
        }
        Ok(Day(value))
    }

    /// The day or count of days `value`, taken as it is.
    pub(crate) fn new_unchecked(value: u8) -> (out: Day)
        requires
            value <= 31,
        ensures
            out@ == value,
    {
        Day(value)
    }

    /// The number of the day. No day exceeds thirty-one.
    pub fn value(&self) -> (out: u8)
        ensures
            out == self@,
            out <= 31,
    {
        proof {
            use_type_invariant(self);
        }
        self.0
    }

    /// The decimal text of the day, without padding.
    pub fn to_string(&self) -> (out: String)
        ensures
            out@ == decimal(self@),
    {
        let mut buf: Vec<char> = Vec::new();
        push_decimal(&mut buf, self.0 as u64);
        string_of(&buf)
    }

    /// The number of a day fits eight bits.
    pub proof fn lemma_view_bounded(self)
        ensures
            self@ <= u8::MAX,
    {
    }

    /// Two days that hold the same number are the same day.
    pub proof fn lemma_view_injective(a: Day, b: Day)
        requires
            a@ == b@,
        ensures
            a == b,
    {
    }
}

impl AddSpecImpl for Year {
    open spec fn obeys_add_spec() -> bool {
        true
    }

    open spec fn add_req(self, rhs: Year) -> bool {
        self@ + rhs@ <= u64::MAX
    }

    open spec fn add_spec(self, rhs: Year) -> Year {
        Year::holding(self@ + rhs@)
    }
}

/// The year that lies `rhs` years after `self`. The sum must fit the year's
/// sixty-four bits.
impl core::ops::Add for Year {
    type Output = Year;

    fn add(self, rhs: Year) -> (out: Year)
        ensures
            out@ == self@ + rhs@,
    {
        self.checked_add(rhs).unwrap()
    }
}

impl SubSpecImpl for Year {
    open spec fn obeys_sub_spec() -> bool {
        true
    }

    open spec fn sub_req(self, rhs: Year) -> bool {
        self@ >= rhs@
    }

    open spec fn sub_spec(self, rhs: Year) -> Year {
        Year::holding((self@ - rhs@) as nat)
    }
}

/// The year that lies `rhs` years before `self`, which must not be before the
/// year zero.
impl core::ops::Sub for Year {
    type Output = Year;

    fn sub(self, rhs: Year) -> (out: Year)
        ensures
            out@ == self@ - rhs@,
    {
        self.checked_sub(rhs).unwrap()
    }
}

impl AddSpecImpl for Month {
    open spec fn obeys_add_spec() -> bool {
        true
    }

    open spec fn add_req(self, rhs: Month) -> bool {
        true
    }

    open spec fn add_spec(self, rhs: Month) -> (Month, Year) {
        (Month::holding(month_sum(self@, rhs@).0), Year::holding(month_sum(self@, rhs@).1))
    }
}

/// The sum of two months, brought back into the year, and the years carried:
/// while the sum exceeds twelve, twelve months make one more year.
impl core::ops::Add for Month {
    type Output = (Month, Year);

    fn add(self, rhs: Month) -> (out: (Month, Year))
        ensures
            out.0@ == month_sum(self@, rhs@).0,
            out.1@ == month_sum(self@, rhs@).1,
            out.1@ <= 1,
    {
        proof {
            use_type_invariant(&self);
            use_type_invariant(&rhs);
            lemma_carried(self@ + rhs@, 12);
        }
        let mut sum: u8 = self.0 + rhs.0;
        let mut years: u64 = 0;
        while sum > MONTHS_PER_YEAR
            invariant
                sum + 12 * years == self.0 + rhs.0,
                self.0 + rhs.0 <= 24,
                years > 0 ==> sum >= 1,
            decreases sum,
        {
            years = years + 1;
            sum = sum - MONTHS_PER_YEAR;
        }
        (Month::new_unchecked(sum), Year::new(years))
    }
}

impl SubSpecImpl for Month {
    open spec fn obeys_sub_spec() -> bool {
        true
    }

    open spec fn sub_req(self, rhs: Month) -> bool {
        true
    }

    open spec fn sub_spec(self, rhs: Month) -> (Month, Year) {
        (
            Month::holding(month_difference(self@, rhs@).0),
            Year::holding(month_difference(self@, rhs@).1),
        )
    }
}

/// The difference of two months and the years borrowed: a difference that is
/// not negative borrows nothing, and a negative one takes twelve months from
/// one more year until it is positive.
impl core::ops::Sub for Month {
    type Output = (Month, Year);

    fn sub(self, rhs: Month) -> (out: (Month, Year))
        ensures
            out.0@ == month_difference(self@, rhs@).0,
            out.1@ == month_difference(self@, rhs@).1,
            out.1@ <= 2,
    {
        proof {
            use_type_invariant(&self);
            use_type_invariant(&rhs);
            lemma_borrowed(self@ - rhs@, 12);
        }
        let mut left: i16 = self.0 as i16 - rhs.0 as i16;
        let mut years: u64 = 0;
        if left >= 0 {
            return (Month::new_unchecked(left as u8), Year::new(years));
        }
        while left <= 0
            invariant
                left - 12 * years == self.0 - rhs.0,
                -12 <= self.0 - rhs.0 < 0,
                left <= 12,
                years <= 2,
            decreases 12 - left,
        {
            years = years + 1;
            left = left + MONTHS_PER_YEAR as i16;
        }
        (Month::new_unchecked(left as u8), Year::new(years))
    }
}

impl AddSpecImpl for Day {
    open spec fn obeys_add_spec() -> bool {
        true
    }

    open spec fn add_req(self, rhs: Day) -> bool {
        true
    }

    open spec fn add_spec(self, rhs: Day) -> (Day, Month) {
        (Day::holding(day_sum(self@, rhs@).0), Month::holding(day_sum(self@, rhs@).1))
    }
}

/// The sum of two days, brought back into the month, and the months carried:
/// while the sum exceeds thirty, thirty days make one more month.
impl core::ops::Add for Day {
    type Output = (Day, Month);

    fn add(self, rhs: Day) -> (out: (Day, Month))
        ensures
            out.0@ == day_sum(self@, rhs@).0,
            out.1@ == day_sum(self@, rhs@).1,
            out.1@ <= 2,
    {
        proof {
            use_type_invariant(&self);
            use_type_invariant(&rhs);
            lemma_carried(self@ + rhs@, 30);
        }
        let mut sum: u8 = self.0 + rhs.0;
        let mut months: u8 = 0;
        while sum > DAYS_PER_MONTH
            invariant
                sum + 30 * months == self.0 + rhs.0,
                self.0 + rhs.0 <= 62,
                months > 0 ==> sum >= 1,
            decreases sum,
        {
            months = months + 1;
            sum = sum - DAYS_PER_MONTH;
        }
        (Day::new_unchecked(sum), Month::new_unchecked(months))
    }
}

impl SubSpecImpl for Day {
    open spec fn obeys_sub_spec() -> bool {
        true
    }

    open spec fn sub_req(self, rhs: Day) -> bool {
        true
    }

    open spec fn sub_spec(self, rhs: Day) -> (Day, Month) {
        (
            Day::holding(day_difference(self@, rhs@).0),
            Month::holding(day_difference(self@, rhs@).1),
        )
    }
}

/// The difference of two days and the months borrowed: a difference that is
/// not negative borrows nothing, and a negative one takes thirty days from
/// one more month until it is positive.
impl core::ops::Sub for Day {
    type Output = (Day, Month);

    fn sub(self, rhs: Day) -> (out: (Day, Month))
        ensures
            out.0@ == day_difference(self@, rhs@).0,
            out.1@ == day_difference(self@, rhs@).1,
            out.1@ <= 2,
    {
        proof {
            use_type_invariant(&self);
            use_type_invariant(&rhs);
            lemma_borrowed(self@ - rhs@, 30);
        }
        let mut left: i16 = self.0 as i16 - rhs.0 as i16;
        let mut months: u8 = 0;
        if left >= 0 {
            return (Day::new_unchecked(left as u8), Month::new_unchecked(months));
        }
        while left <= 0
            invariant
                left - 30 * months == self.0 - rhs.0,
                -31 <= self.0 - rhs.0 < 0,
                left <= 30,
                months <= 2,
            decreases 30 - left,
        {
            months = months + 1;
            left = left + DAYS_PER_MONTH as i16;
        }
        (Day::new_unchecked(left as u8), Month::new_unchecked(months))
    }
}

} // verus!
