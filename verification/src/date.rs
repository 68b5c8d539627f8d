use vstd::prelude::*;

verus! {

/// Mathematical model of a proleptic Gregorian calendar date.
pub struct DateV {
    pub y: int,
    pub m: int,
    pub d: int,
}

/// True for years with 366 days in the proleptic Gregorian calendar.
pub open spec fn is_leap_year(y: int) -> bool {
    (y % 4 == 0 && y % 100 != 0) || y % 400 == 0
}

/// Number of days in a month of the given year.
pub open spec fn days_in_month(y: int, m: int) -> int {
    if m == 2 {
        if is_leap_year(y) {
            29
        } else {
            28
        }
    } else if m == 4 || m == 6 || m == 9 || m == 11 {
        30
    } else {
        31
    }
}

/// A well-formed calendar date: month in range, day within the month.
pub open spec fn valid_date(dv: DateV) -> bool {
    1 <= dv.m <= 12 && 1 <= dv.d <= days_in_month(dv.y, dv.m)
}

/// The calendar day after `dv`.
pub open spec fn next_date(dv: DateV) -> DateV {
    if dv.d < days_in_month(dv.y, dv.m) {
        DateV { y: dv.y, m: dv.m, d: dv.d + 1 }
    } else if dv.m < 12 {
        DateV { y: dv.y, m: dv.m + 1, d: 1 }
    } else {
        DateV { y: dv.y + 1, m: 1, d: 1 }
    }
}

/// The calendar day before `dv`.
pub open spec fn prev_date(dv: DateV) -> DateV {
    if dv.d > 1 {
        DateV { y: dv.y, m: dv.m, d: dv.d - 1 }
    } else if dv.m > 1 {
        DateV { y: dv.y, m: dv.m - 1, d: days_in_month(dv.y, dv.m - 1) }
    } else {
        DateV { y: dv.y - 1, m: 12, d: 31 }
    }
}

/// `dv` stepped forward by `n` calendar days.
pub open spec fn plus_days(dv: DateV, n: nat) -> DateV
    decreases n,
{
    if n == 0 {
        dv
    } else {
        next_date(plus_days(dv, (n - 1) as nat))
    }
}

/// `dv` stepped backward by `n` calendar days.
pub open spec fn minus_days(dv: DateV, n: nat) -> DateV
    decreases n,
{
    if n == 0 {
        dv
    } else {
        prev_date(minus_days(dv, (n - 1) as nat))
    }
}

pub proof fn lemma_next_date_valid(dv: DateV)
    requires
        valid_date(dv),
    ensures
        valid_date(next_date(dv)),
{
}

pub proof fn lemma_prev_date_valid(dv: DateV)
    requires
        valid_date(dv),
    ensures
        valid_date(prev_date(dv)),
{
}

/// Stepping forward one day and then back one day is the identity on
/// valid dates, and likewise in the other order.
pub proof fn lemma_day_round_trip(dv: DateV)
    requires
        valid_date(dv),
    ensures
        prev_date(next_date(dv)) == dv,
        next_date(prev_date(dv)) == dv,
{
}

pub proof fn lemma_plus_days_valid(dv: DateV, n: nat)
    requires
        valid_date(dv),
    ensures
        valid_date(plus_days(dv, n)),
    decreases n,
{
    if n > 0 {
        lemma_plus_days_valid(dv, (n - 1) as nat);
        lemma_next_date_valid(plus_days(dv, (n - 1) as nat));
    }
}

pub proof fn lemma_minus_days_valid(dv: DateV, n: nat)
    requires
        valid_date(dv),
    ensures
        valid_date(minus_days(dv, n)),
    decreases n,
{
    if n > 0 {
        lemma_minus_days_valid(dv, (n - 1) as nat);
        lemma_prev_date_valid(minus_days(dv, (n - 1) as nat));
    }
}

/// One week forward is exactly seven single-day steps forward.
pub proof fn lemma_week_is_seven_days(dv: DateV)
    ensures
        plus_days(dv, 7) == next_date(next_date(next_date(next_date(next_date(next_date(
            next_date(dv),
        )))))),
        minus_days(dv, 7) == prev_date(prev_date(prev_date(prev_date(prev_date(prev_date(
            prev_date(dv),
        )))))),
{
    reveal_with_fuel(plus_days, 8);
    reveal_with_fuel(minus_days, 8);
}

/// Executable calendar date with the model `DateV`.
#[derive(Clone, Copy, PartialEq, Eq, Structural, Debug)]
pub struct Date {
    pub year: i64,
    pub month: u8,
    pub day: u8,
}

impl View for Date {
    type V = DateV;

    open spec fn view(&self) -> DateV {
        DateV { y: self.year as int, m: self.month as int, d: self.day as int }
    }
}

impl Date {
    /// Number of days in `month` of `year`.
    pub fn month_len(year: i64, month: u8) -> (r: u8)
        requires
            1 <= month <= 12,
        ensures
            r as int == days_in_month(year as int, month as int),
    {
        if month == 2 {
            let leap: bool = (year % 4 == 0 && year % 100 != 0) || year % 400 == 0;
            assert(leap == is_leap_year(year as int)) by {
                assert(year % 4 == 0 <==> (year as int) % 4 == 0);
                assert(year % 100 == 0 <==> (year as int) % 100 == 0);
                assert(year % 400 == 0 <==> (year as int) % 400 == 0);
            }
            if leap {
                29
            } else {
                28
            }
        } else if month == 4 || month == 6 || month == 9 || month == 11 {
            30
        } else {
            31
        }
    }

    pub open spec fn wf(&self) -> bool {
        valid_date(self@)
    }

    /// True exactly when the fields form a well-formed calendar date.
    pub fn is_valid(&self) -> (r: bool)
        ensures
            r == self.wf(),
    {
        if self.month < 1 || self.month > 12 {
            false
        } else {
            1 <= self.day && self.day <= Self::month_len(self.year, self.month)
        }
    }

    /// The calendar day after this one.
    pub fn succ(&self) -> (r: Date)
        requires
            self.wf(),
            !(self.year == i64::MAX && self.month == 12 && self.day == 31),
        ensures
            r@ == next_date(self@),
            r.wf(),
    {
        let dim = Self::month_len(self.year, self.month);
        if self.day < dim {
            Date { year: self.year, month: self.month, day: self.day + 1 }
        } else if self.month < 12 {
            Date { year: self.year, month: self.month + 1, day: 1 }
        } else {
            Date { year: self.year + 1, month: 1, day: 1 }
        }
    }

    /// The calendar day before this one.
    pub fn pred(&self) -> (r: Date)
        requires
            self.wf(),
            !(self.year == i64::MIN && self.month == 1 && self.day == 1),
        ensures
            r@ == prev_date(self@),
            r.wf(),
    {
        if self.day > 1 {
            Date { year: self.year, month: self.month, day: self.day - 1 }
        } else if self.month > 1 {
            Date {
                year: self.year,
                month: self.month - 1,
                day: Self::month_len(self.year, self.month - 1),
            }
        } else {
            Date { year: self.year - 1, month: 12, day: 31 }
        }
    }
}

} // verus!
