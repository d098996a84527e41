//! Laws of dates and times: the calendar day by day, and the text of a moment.
use crate::calendar::{days_have_dates, is_date};
use crate::laws::text::{decimal_texts_read_back, read_decimal};
use crate::strings::{decimal, padded};
use crate::vars::{date_of, iso_text, stamp_text};
use vstd::prelude::*;

verus! {

/// A leap year of the Gregorian calendar.
pub open spec fn leap_year(y: int) -> bool {
    y % 4 == 0 && (y % 100 != 0 || y % 400 == 0)
}

/// How many days a month has.
pub open spec fn month_length(y: int, m: int) -> int {
    if m == 2 {
        if leap_year(y) {
            29
        } else {
            28
        }
    } else if m == 4 || m == 6 || m == 9 || m == 11 {
        30
    } else {
        31
    }
}

/// The day after a date.
pub open spec fn next_day(date: (int, int, int)) -> (int, int, int) {
    let (y, m, d) = date;
    if d < month_length(y, m) {
        (y, m, d + 1)
    } else if m < 12 {
        (y, m + 1, 1)
    } else {
        (y + 1, 1, 1)
    }
}

/// Day 0 is the first of January 1970, and each day is followed by the next one of
/// the calendar.
pub proof fn days_follow_the_calendar(days: int, y: int, m: int, d: int)
    requires
        is_date(days, y, m, d),
    ensures
        is_date(0, 1970, 1, 1),
        1 <= m <= 12,
        1 <= d <= month_length(y, m),
        is_date(days + 1, next_day((y, m, d)).0, next_day((y, m, d)).1, next_day((y, m, d)).2),
{
    crate::calendar::dates_advance_by_one(days, y, m, d);
}

proof fn lemma_zeros_read(k: nat, s: Seq<char>)
    ensures
        read_decimal(Seq::new(k, |i: int| '0') + s) == read_decimal(s),
    decreases k, s.len(),
{
    let zeros = Seq::new(k, |i: int| '0');
    let all = zeros + s;
    if s.len() > 0 {
        assert(all.drop_last() =~= zeros + s.drop_last());
        lemma_zeros_read(k, s.drop_last());
    } else if k > 0 {
        let fewer = Seq::new((k - 1) as nat, |i: int| '0');
        assert(all.drop_last() =~= fewer + s);
        lemma_zeros_read((k - 1) as nat, s);
    } else {
        assert(all =~= s);
    }
}

/// A number that is filled up with zeros still reads as that number.
pub proof fn padded_texts_read_back(n: nat, width: nat)
    ensures
        read_decimal(padded(n, width)) == n,
        padded(n, width).len() >= width,
{
    decimal_texts_read_back(n);
    let d = decimal(n);
    if d.len() < width {
        lemma_zeros_read((width - d.len()) as nat, d);
    }
}

proof fn lemma_two_digits(n: nat)
    requires
        n < 100,
    ensures
        padded(n, 2).len() == 2,
{
    reveal_with_fuel(decimal, 3);
}

proof fn lemma_four_digits(n: nat)
    requires
        n < 10000,
    ensures
        padded(n, 4).len() == 4,
{
    reveal_with_fuel(decimal, 5);
}

proof fn lemma_parts(
    y: Seq<char>,
    m: Seq<char>,
    d: Seq<char>,
    hour: Seq<char>,
    minute: Seq<char>,
    second: Seq<char>,
)
    requires
        y.len() == 4,
        m.len() == 2,
        d.len() == 2,
        hour.len() == 2,
        minute.len() == 2,
        second.len() == 2,
    ensures
        ({
            let t = (y + seq!['-'] + m + seq!['-'] + d) + seq!['T'] + (hour + seq![':'] + minute
                + seq![':'] + second) + seq!['Z'];
            &&& t.len() == 20
            &&& t.subrange(0, 4) == y
            &&& t.subrange(5, 7) == m
            &&& t.subrange(8, 10) == d
            &&& t.subrange(11, 13) == hour
            &&& t.subrange(14, 16) == minute
            &&& t.subrange(17, 19) == second
        }),
{
    let t = (y + seq!['-'] + m + seq!['-'] + d) + seq!['T'] + (hour + seq![':'] + minute
        + seq![':'] + second) + seq!['Z'];
    assert(t.subrange(0, 4) =~= y);
    assert(t.subrange(5, 7) =~= m);
    assert(t.subrange(8, 10) =~= d);
    assert(t.subrange(11, 13) =~= hour);
    assert(t.subrange(14, 16) =~= minute);
    assert(t.subrange(17, 19) =~= second);
}

/// Up to the end of the year 9999 the text of a moment reads as its date and its time
/// of day: four digits of the year, two each of the month, the day, the hour, the
/// minute and the second.
pub proof fn moments_read_back(secs: nat)
    requires
        secs < 253_402_300_800,
    ensures
        ({
            let t = iso_text(secs);
            let y = read_decimal(t.subrange(0, 4));
            let m = read_decimal(t.subrange(5, 7));
            let d = read_decimal(t.subrange(8, 10));
            let hour = read_decimal(t.subrange(11, 13));
            let minute = read_decimal(t.subrange(14, 16));
            let second = read_decimal(t.subrange(17, 19));
            &&& t.len() == 20
            &&& is_date((secs / 86400) as int, y, m, d)
            &&& 0 <= hour < 24 && 0 <= minute < 60 && 0 <= second < 60
            &&& hour * 3600 + minute * 60 + second == secs % 86400
        }),
{
    let days = (secs / 86400) as int;
    days_have_dates(days);
    let (y, m, d) = date_of(days);
    assert(is_date(days, y, m, d));
    let rem = secs % 86400;
    let t = iso_text(secs);
    lemma_four_digits(y as nat);
    lemma_two_digits(m as nat);
    lemma_two_digits(d as nat);
    lemma_two_digits(rem / 3600);
    lemma_two_digits(rem % 3600 / 60);
    lemma_two_digits(rem % 60);
    padded_texts_read_back(y as nat, 4);
    padded_texts_read_back(m as nat, 2);
    padded_texts_read_back(d as nat, 2);
    padded_texts_read_back(rem / 3600, 2);
    padded_texts_read_back(rem % 3600 / 60, 2);
    padded_texts_read_back(rem % 60, 2);
    lemma_parts(
        padded(y as nat, 4),
        padded(m as nat, 2),
        padded(d as nat, 2),
        padded(rem / 3600, 2),
        padded(rem % 3600 / 60, 2),
        padded(rem % 60, 2),
    );
    assert(t == stamp_text(y, m, d, rem));
}

} // verus!
