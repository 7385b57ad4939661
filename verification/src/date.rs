//! Calendar dates.

use crate::text::{digits_of, push_padded, string_from, zero_padded};
use vstd::prelude::*;

verus! {

/// First year that a [`Date`] can hold.
pub const MIN_YEAR: i32 = -262143;

/// Last year that a [`Date`] can hold.
pub const MAX_YEAR: i32 = 262142;

/// Leap years of the proleptic Gregorian calendar.
pub open spec fn is_leap_year(year: int) -> bool {
    year % 4 == 0 && (year % 100 != 0 || year % 400 == 0)
}

/// Length of a month in the proleptic Gregorian calendar; 0 for a month
/// number outside 1..=12.
pub open spec fn days_in_month(year: int, month: int) -> int {
    if month == 2 {
        if is_leap_year(year) {
            29
        } else {
            28
        }
    } else if month == 4 || month == 6 || month == 9 || month == 11 {
        30
    } else if 1 <= month <= 12 {
        31
    } else {
        0
    }
}

/// Whether year, month and day name a day of the calendar.
pub open spec fn is_calendar_date(year: int, month: int, day: int) -> bool {
    &&& MIN_YEAR <= year <= MAX_YEAR
    &&& 1 <= month <= 12
    &&& 1 <= day <= days_in_month(year, month)
}

/// `chrono::NaiveDate::from_ymd_opt(..).is_some()`: chrono accepts exactly the
/// days of the proleptic Gregorian calendar whose year lies between
/// `MIN_YEAR` and `MAX_YEAR`.
#[verifier::external_body]
fn calendar_date_exists(year: i32, month: u32, day: u32) -> (r: bool)
    ensures
        r == is_calendar_date(year as int, month as int, day as int),
{
    chrono::NaiveDate::from_ymd_opt(year, month, day).is_some()
}

/// A day of the calendar. Every value is a real date: the constructor refuses
/// anything else.
#[derive(Clone, Copy, Debug, PartialEq, Eq, Structural)]
pub struct Date {
    year: i32,
    month: u32,
    day: u32,
}

/// The year as ISO 8601 writes it: four digits from 0 to 9999, otherwise a
/// sign and at least four digits.
pub open spec fn iso_year(year: int) -> Seq<char> {
    if 0 <= year <= 9999 {
        zero_padded(digits_of(year as nat), 4)
    } else if year > 9999 {
        seq!['+'] + digits_of(year as nat)
    } else {
        seq!['-'] + zero_padded(digits_of((-year) as nat), 4)
    }
}

/// The date as `YYYY-MM-DD`.
pub open spec fn iso_date(year: int, month: int, day: int) -> Seq<char> {
    iso_year(year) + seq!['-'] + zero_padded(digits_of(month as nat), 2) + seq!['-'] + zero_padded(
        digits_of(day as nat),
        2,
    )
}

impl Date {
    /// The year.
    pub closed spec fn year_of(self) -> int {
        self.year as int
    }

    /// The month, 1 for January.
    pub closed spec fn month_of(self) -> int {
        self.month as int
    }

    /// The day of the month.
    pub closed spec fn day_of(self) -> int {
        self.day as int
    }

    /// Holds of every `Date` that executable code can get hold of.
    #[verifier::type_invariant]
    pub open spec fn wf(self) -> bool {
        is_calendar_date(self.year_of(), self.month_of(), self.day_of())
    }

    /// The date as one number, `YYYYMMDD`: earlier dates have smaller keys.
    pub open spec fn key(self) -> int {
        self.year_of() * 10000 + self.month_of() * 100 + self.day_of()
    }

    /// The date as `YYYY-MM-DD`.
    pub open spec fn iso(self) -> Seq<char> {
        iso_date(self.year_of(), self.month_of(), self.day_of())
    }

    /// The date of the given year, month and day, if the calendar has it.
    pub fn from_ymd_opt(year: i32, month: u32, day: u32) -> (r: Option<Date>)
        ensures
            r is Some <==> is_calendar_date(year as int, month as int, day as int),
            r matches Some(d) ==> d.wf() && d.year_of() == year && d.month_of() == month
                && d.day_of() == day,
    {
        if calendar_date_exists(year, month, day) {
            Some(Date { year, month, day })
        } else {
            None
        }
    }

    /// The year.
    pub fn year(&self) -> (r: i32)
        ensures
            r == self.year_of(),
            MIN_YEAR <= r <= MAX_YEAR,
    {
        proof {
            use_type_invariant(self);
        }
        self.year
    }

    /// The month, 1 for January.
    pub fn month(&self) -> (r: u32)
        ensures
            r == self.month_of(),
            1 <= r <= 12,
    {
        proof {
            use_type_invariant(self);
        }
        self.month
    }

    /// The day of the month.
    pub fn day(&self) -> (r: u32)
        ensures
            r == self.day_of(),
            1 <= r <= days_in_month(self.year_of(), self.month_of()),
    {
        proof {
            use_type_invariant(self);
        }
        self.day
    }

    /// The date as one number, `YYYYMMDD`.
    pub fn sort_key(&self) -> (r: i64)
        ensures
            r == self.key(),
    {
        proof {
            use_type_invariant(self);
        }
        (self.year as i64) * 10000 + (self.month as i64) * 100 + (self.day as i64)
    }

    /// Appends the date, as `YYYY-MM-DD`, to `out`.
    pub fn push_iso(&self, out: &mut Vec<char>)
        ensures
            final(out)@ == old(out)@ + self.iso(),
    {
        proof {
            use_type_invariant(self);
        }
        let ghost before = out@;
        if self.year >= 0 && self.year <= 9999 {
            push_padded(out, self.year as u64, 4);
        } else if self.year > 9999 {
            out.push('+');
            push_padded(out, self.year as u64, 0);
            assert(out@ =~= before + iso_year(self.year as int));
        } else {
            out.push('-');
            push_padded(out, (-(self.year as i64)) as u64, 4);
            assert(out@ =~= before + iso_year(self.year as int));
        }
        out.push('-');
        push_padded(out, self.month as u64, 2);
        out.push('-');
        push_padded(out, self.day as u64, 2);
        assert(out@ =~= before + self.iso());
    }

    /// The date as `YYYY-MM-DD`.
    pub fn to_iso_string(&self) -> (r: String)
        ensures
            r@ == self.iso(),
    {
        let mut out: Vec<char> = Vec::new();
        self.push_iso(&mut out);
        assert(Seq::<char>::empty() + self.iso() =~= self.iso());
        string_from(&out)
    }
}

/// Two dates with the same key are the same date.
pub proof fn lemma_key_injective(a: Date, b: Date)
    requires
        a.wf(),
        b.wf(),
        a.key() == b.key(),
    ensures
        a == b,
{
}

/// Keys follow the calendar: a date with an earlier year, or the same year and
/// an earlier month, or the same month and an earlier day, has the smaller key.
pub proof fn lemma_key_follows_calendar(a: Date, b: Date)
    requires
        a.wf(),
        b.wf(),
    ensures
        a.key() < b.key() <==> (a.year_of() < b.year_of() || (a.year_of() == b.year_of() && (
        a.month_of() < b.month_of() || (a.month_of() == b.month_of() && a.day_of()
            < b.day_of())))),
{
}

} // verus!
