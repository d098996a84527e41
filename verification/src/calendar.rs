//! The Gregorian calendar, counted in days from 1970-01-01.
use vstd::prelude::*;

verus! {

pub open spec fn is_leap(y: int) -> bool {
    y % 4 == 0 && (y % 100 != 0 || y % 400 == 0)
}

/// Days from 0001-01-01 to the first day of year `y`.
pub open spec fn days_before_year(y: int) -> int {
    365 * (y - 1) + (y - 1) / 4 - (y - 1) / 100 + (y - 1) / 400
}

/// Days from 0001-01-01 to 1970-01-01.
pub const EPOCH_DAYS: u64 = 719162;

/// Days of a year before the first of month `m`; `m` is 13 for the whole year.
pub open spec fn days_before_month(leap: bool, m: int) -> int {
    let extra: int = if leap && m > 2 { 1 } else { 0 };
    let base: int = if m <= 1 {
        0
    } else if m == 2 {
        31
    } else if m == 3 {
        59
    } else if m == 4 {
        90
    } else if m == 5 {
        120
    } else if m == 6 {
        151
    } else if m == 7 {
        181
    } else if m == 8 {
        212
    } else if m == 9 {
        243
    } else if m == 10 {
        273
    } else if m == 11 {
        304
    } else if m == 12 {
        334
    } else {
        365
    };
    base + extra
}

/// Whether the day `days` after 1970-01-01 is day `d` of month `m` of year `y`.
pub open spec fn is_date(days: int, y: int, m: int, d: int) -> bool {
    &&& 1 <= y
    &&& 1 <= m <= 12
    &&& 1 <= d <= days_before_month(is_leap(y), m + 1) - days_before_month(is_leap(y), m)
    &&& days + EPOCH_DAYS == days_before_year(y) + days_before_month(is_leap(y), m) + d - 1
}

proof fn lemma_year_step(y: int)
    requires
        1 <= y,
    ensures
        days_before_year(y + 1) == days_before_year(y) + if is_leap(y) {
            366int
        } else {
            365int
        },
{
}

proof fn lemma_years_ascend(a: int, b: int)
    requires
        1 <= a <= b,
    ensures
        days_before_year(b) >= days_before_year(a) + 365 * (b - a),
    decreases b - a,
{
    if a < b {
        lemma_years_ascend(a, b - 1);
        lemma_year_step(b - 1);
    }
}

/// A day is one date and no other.
pub proof fn dates_are_unique(days: int, y: int, m: int, d: int, y2: int, m2: int, d2: int)
    requires
        is_date(days, y, m, d),
        is_date(days, y2, m2, d2),
    ensures
        y == y2,
        m == m2,
        d == d2,
{
    lemma_year_step(y);
    lemma_year_step(y2);
    if y < y2 {
        lemma_years_ascend(y + 1, y2);
    } else if y2 < y {
        lemma_years_ascend(y2 + 1, y);
    }
}

/// The day after a date is the next day of its month, the first of the next
/// month, or the first day of the next year.
pub proof fn dates_advance_by_one(days: int, y: int, m: int, d: int)
    requires
        is_date(days, y, m, d),
    ensures
        is_date(days + 1, y, m, d + 1) || (m < 12 && is_date(days + 1, y, m + 1, 1)) || (m == 12
            && d == 31 && is_date(days + 1, y + 1, 1, 1)),
{
    lemma_year_step(y);
}

proof fn lemma_months_ascend(leap: bool, a: int, b: int)
    requires
        1 <= a <= b <= 13,
    ensures
        days_before_month(leap, a) <= days_before_month(leap, b),
    decreases b - a,
{
    if a < b {
        lemma_months_ascend(leap, a, b - 1);
    }
}

/// A later day has a later date: by its year, then by its month, then by its day.
pub proof fn dates_are_ordered(
    days: int,
    y: int,
    m: int,
    d: int,
    days2: int,
    y2: int,
    m2: int,
    d2: int,
)
    requires
        days < days2,
        is_date(days, y, m, d),
        is_date(days2, y2, m2, d2),
    ensures
        y < y2 || (y == y2 && m < m2) || (y == y2 && m == m2 && d < d2),
{
    lemma_year_step(y2);
    lemma_months_ascend(is_leap(y2), m2 + 1, 13);
    if y2 < y {
        lemma_years_ascend(y2 + 1, y);
        lemma_months_ascend(is_leap(y), 1, m);
    } else if y == y2 && m2 < m {
        lemma_months_ascend(is_leap(y), m2 + 1, m);
    }
}

/// Every day from 1970-01-01 on has a date, and up to the last day of the year 9999
/// its year has four digits.
pub proof fn days_have_dates(days: int)
    requires
        0 <= days,
    ensures
        exists|y: int, m: int, d: int| #[trigger] is_date(days, y, m, d),
        forall|y: int, m: int, d: int| #[trigger]
            is_date(days, y, m, d) && days <= 2932896 ==> 1 <= y <= 9999,
    decreases days,
{
    if days == 0 {
        assert(is_date(0, 1970, 1, 1));
    } else {
        days_have_dates(days - 1);
        let (y, m, d) = choose|y: int, m: int, d: int| #[trigger] is_date(days - 1, y, m, d);
        dates_advance_by_one(days - 1, y, m, d);
        assert(is_date(days, y, m, d + 1) || is_date(days, y, m + 1, 1) || is_date(
            days,
            y + 1,
            1,
            1,
        ));
    }
    assert forall|y: int, m: int, d: int| #[trigger]
        is_date(days, y, m, d) && days <= 2932896 implies 1 <= y <= 9999 by {
        if y >= 10000 {
            lemma_years_ascend(10000, y);
            lemma_months_ascend(is_leap(y), 1, m);
        }
    }
}

/// The calendar date of a day.
pub struct Civil {
    pub year: u64,
    pub month: u64,
    pub day: u64,
}

fn leap(y: u64) -> (r: bool)
    ensures
        r == is_leap(y as int),
{
    y % 4 == 0 && (y % 100 != 0 || y % 400 == 0)
}

fn month_start(is_leap_year: bool, m: u64) -> (r: u64)
    requires
        1 <= m <= 13,
    ensures
        r == days_before_month(is_leap_year, m as int),
{
    let extra: u64 = if is_leap_year && m > 2 {
        1
    } else {
        0
    };
    let base: u64 = match m {
        1 => 0,
        2 => 31,
        3 => 59,
        4 => 90,
        5 => 120,
        6 => 151,
        7 => 181,
        8 => 212,
        9 => 243,
        10 => 273,
        11 => 304,
        12 => 334,
        _ => 365,
    };
    base + extra
}

/// The date of the day `days` after 1970-01-01.
pub fn civil_from_days(days: u64) -> (r: Civil)
    requires
        days <= u64::MAX / 86400,
    ensures
        is_date(days as int, r.year as int, r.month as int, r.day as int),
{
    let total: u64 = days + EPOCH_DAYS;
    let n400: u64 = total / 146097;
    let r400: u64 = total % 146097;
    let c: u64 = r400 / 36524;
    let n100: u64 = if c > 3 {
        3
    } else {
        c
    };
    let r100: u64 = r400 - n100 * 36524;
    let n4: u64 = r100 / 1461;
    let r4: u64 = r100 % 1461;
    let q: u64 = r4 / 365;
    let n1: u64 = if q > 3 {
        3
    } else {
        q
    };
    let doy: u64 = r4 - n1 * 365;
    let y: u64 = 400 * n400 + 100 * n100 + 4 * n4 + n1 + 1;
    proof {
        lemma_cycle(n400 as int, n100 as int, n4 as int, n1 as int);
        assert(total == days_before_year(y as int) + doy);
        lemma_year_step(y as int);
        assert(doy < days_before_year(y + 1) - days_before_year(y as int)) by {
            lemma_last_day(n400 as int, n100 as int, n4 as int, n1 as int, doy as int);
        }
    }
    let is_leap_year = leap(y);
    let mut m: u64 = 1;
    while m < 12 && month_start(is_leap_year, m + 1) <= doy
        invariant
            1 <= m <= 12,
            days_before_month(is_leap_year, m as int) <= doy,
        decreases 12 - m,
    {
        m = m + 1;
    }
    Civil { year: y, month: m, day: doy - month_start(is_leap_year, m) + 1 }
}

proof fn lemma_cycle(a: int, b: int, c: int, d: int)
    requires
        0 <= a,
        0 <= b <= 3,
        0 <= c <= 24,
        0 <= d <= 3,
    ensures
        days_before_year(400 * a + 100 * b + 4 * c + d + 1) == 146097 * a + 36524 * b + 1461 * c
            + 365 * d,
{
    let n = 400 * a + 100 * b + 4 * c + d;
    assert(n / 4 == 100 * a + 25 * b + c);
    assert(n / 100 == 4 * a + b);
    assert(n / 400 == a);
}

proof fn lemma_last_day(a: int, b: int, c: int, d: int, doy: int)
    requires
        0 <= a,
        0 <= b <= 3,
        0 <= c <= 24,
        0 <= d <= 3,
        0 <= doy <= 365,
        doy == 365 ==> d == 3 && (c < 24 || b == 3),
    ensures
        doy < if is_leap(400 * a + 100 * b + 4 * c + d + 1) {
            366int
        } else {
            365int
        },
{
}

} // verus!
