//! The order of times as texts.
use crate::calendar::{dates_are_ordered, days_have_dates, is_date};
use crate::names::text_less;
use crate::strings::{decimal, digit, padded};
use crate::vars::{clock_text, date_of, day_text, iso_text, stamp_text};
use vstd::prelude::*;

verus! {

/// Texts of one length before which and behind which anything equal and anything at
/// all stands are ordered as they are alone.
proof fn lemma_field_less(p: Seq<char>, x: Seq<char>, y: Seq<char>, u: Seq<char>, v: Seq<char>)
    requires
        text_less(x, y),
        x.len() == y.len(),
    ensures
        text_less(p + x + u, p + y + v),
    decreases p.len() + x.len(),
{
    let a = p + x + u;
    let b = p + y + v;
    if p.len() > 0 {
        lemma_field_less(p.skip(1), x, y, u, v);
        assert(a.skip(1) =~= p.skip(1) + x + u);
        assert(b.skip(1) =~= p.skip(1) + y + v);
    } else if x[0] == y[0] {
        lemma_field_less(p, x.skip(1), y.skip(1), u, v);
        assert(a.skip(1) =~= p + x.skip(1) + u);
        assert(b.skip(1) =~= p + y.skip(1) + v);
    } else {
        assert(a[0] == x[0]);
        assert(b[0] == y[0]);
    }
}

proof fn lemma_two_digits(n: nat)
    requires
        n < 100,
    ensures
        padded(n, 2) == seq![digit(n as int / 10), digit(n as int % 10)],
{
    reveal_with_fuel(decimal, 3);
    assert(padded(n, 2) =~= seq![digit(n as int / 10), digit(n as int % 10)]);
}

proof fn lemma_four_digits(n: nat)
    requires
        n < 10000,
    ensures
        padded(n, 4) == padded(n / 100, 2) + padded(n % 100, 2),
{
    lemma_two_digits(n / 100);
    lemma_two_digits(n % 100);
    reveal_with_fuel(decimal, 5);
    assert(padded(n, 4) =~= padded(n / 100, 2) + padded(n % 100, 2));
}

proof fn lemma_two_digits_less(a: nat, b: nat)
    requires
        a < b < 100,
    ensures
        text_less(padded(a, 2), padded(b, 2)),
        padded(a, 2).len() == 2,
        padded(b, 2).len() == 2,
{
    lemma_two_digits(a);
    lemma_two_digits(b);
    let x = padded(a, 2);
    let y = padded(b, 2);
    if x[0] == y[0] {
        assert(x.skip(1)[0] == x[1]);
        assert(y.skip(1)[0] == y[1]);
        assert(text_less(x.skip(1), y.skip(1)));
    }
}

proof fn lemma_four_digits_less(a: nat, b: nat)
    requires
        a < b < 10000,
    ensures
        text_less(padded(a, 4), padded(b, 4)),
        padded(a, 4).len() == 4,
        padded(b, 4).len() == 4,
{
    lemma_four_digits(a);
    lemma_four_digits(b);
    lemma_two_digits(a / 100);
    lemma_two_digits(b / 100);
    lemma_two_digits(a % 100);
    lemma_two_digits(b % 100);
    let none = Seq::<char>::empty();
    if a / 100 < b / 100 {
        lemma_two_digits_less(a / 100, b / 100);
        lemma_field_less(
            none,
            padded(a / 100, 2),
            padded(b / 100, 2),
            padded(a % 100, 2),
            padded(b % 100, 2),
        );
        assert(padded(a, 4) =~= none + padded(a / 100, 2) + padded(a % 100, 2));
        assert(padded(b, 4) =~= none + padded(b / 100, 2) + padded(b % 100, 2));
    } else {
        lemma_two_digits_less(a % 100, b % 100);
        lemma_field_less(
            padded(a / 100, 2),
            padded(a % 100, 2),
            padded(b % 100, 2),
            none,
            none,
        );
        assert(padded(a, 4) =~= padded(a / 100, 2) + padded(a % 100, 2) + none);
        assert(padded(b, 4) =~= padded(b / 100, 2) + padded(b % 100, 2) + none);
    }
}

proof fn lemma_clock_less(a: nat, b: nat)
    requires
        a < b < 86400,
    ensures
        text_less(clock_text(a), clock_text(b)),
{
    let colon = seq![':'];
    let none = Seq::<char>::empty();
    let (h, m, s) = (padded(a / 3600, 2), padded(a % 3600 / 60, 2), padded(a % 60, 2));
    let (h2, m2, s2) = (padded(b / 3600, 2), padded(b % 3600 / 60, 2), padded(b % 60, 2));
    if a / 3600 < b / 3600 {
        lemma_two_digits_less(a / 3600, b / 3600);
        lemma_field_less(none, h, h2, colon + m + colon + s, colon + m2 + colon + s2);
        assert(clock_text(a) =~= none + h + (colon + m + colon + s));
        assert(clock_text(b) =~= none + h2 + (colon + m2 + colon + s2));
    } else if a % 3600 / 60 < b % 3600 / 60 {
        lemma_two_digits_less(a % 3600 / 60, b % 3600 / 60);
        lemma_field_less(h + colon, m, m2, colon + s, colon + s2);
        assert(clock_text(a) =~= h + colon + m + (colon + s));
        assert(clock_text(b) =~= h + colon + m2 + (colon + s2));
    } else {
        lemma_two_digits_less(a % 60, b % 60);
        lemma_field_less(h + colon + m + colon, s, s2, none, none);
        assert(clock_text(a) =~= h + colon + m + colon + s + none);
        assert(clock_text(b) =~= h + colon + m + colon + s2 + none);
    }
}

proof fn lemma_clock_form(rem: nat)
    requires
        rem < 86400,
    ensures
        clock_text(rem).len() == 8,
        clock_text(rem)[2] == ':',
        clock_text(rem)[5] == ':',
{
    lemma_two_digits(rem / 3600);
    lemma_two_digits(rem % 3600 / 60);
    lemma_two_digits(rem % 60);
}

proof fn lemma_day_form(y: int, m: int, d: int)
    requires
        0 <= y < 10000,
        0 <= m < 100,
        0 <= d < 100,
    ensures
        day_text(y, m, d).len() == 10,
        day_text(y, m, d)[4] == '-',
        day_text(y, m, d)[7] == '-',
{
    lemma_four_digits(y as nat);
    lemma_two_digits(y as nat / 100);
    lemma_two_digits(y as nat % 100);
    lemma_two_digits(m as nat);
    lemma_two_digits(d as nat);
}

proof fn lemma_day_less(y: int, m: int, d: int, y2: int, m2: int, d2: int)
    requires
        0 <= y <= y2 < 10000,
        0 <= m < 100,
        0 <= m2 < 100,
        0 <= d < 100,
        0 <= d2 < 100,
        y < y2 || m < m2 || (m == m2 && d < d2),
    ensures
        text_less(day_text(y, m, d), day_text(y2, m2, d2)),
{
    let dash = seq!['-'];
    let none = Seq::<char>::empty();
    let (a, b, c) = (padded(y as nat, 4), padded(m as nat, 2), padded(d as nat, 2));
    let (a2, b2, c2) = (padded(y2 as nat, 4), padded(m2 as nat, 2), padded(d2 as nat, 2));
    if y < y2 {
        lemma_four_digits_less(y as nat, y2 as nat);
        lemma_field_less(none, a, a2, dash + b + dash + c, dash + b2 + dash + c2);
        assert(day_text(y, m, d) =~= none + a + (dash + b + dash + c));
        assert(day_text(y2, m2, d2) =~= none + a2 + (dash + b2 + dash + c2));
    } else if m < m2 {
        lemma_two_digits_less(m as nat, m2 as nat);
        lemma_field_less(a + dash, b, b2, dash + c, dash + c2);
        assert(day_text(y, m, d) =~= a + dash + b + (dash + c));
        assert(day_text(y2, m2, d2) =~= a + dash + b2 + (dash + c2));
    } else {
        lemma_two_digits_less(d as nat, d2 as nat);
        lemma_field_less(a + dash + b + dash, c, c2, none, none);
        assert(day_text(y, m, d) =~= a + dash + b + dash + c + none);
        assert(day_text(y2, m2, d2) =~= a + dash + b + dash + c2 + none);
    }
}

proof fn lemma_iso(secs: nat) -> (date: (int, int, int))
    requires
        secs < 253_402_300_800,
    ensures
        is_date((secs / 86400) as int, date.0, date.1, date.2),
        iso_text(secs) == stamp_text(date.0, date.1, date.2, secs % 86400),
        1 <= date.0 <= 9999,
        1 <= date.1 <= 12,
        1 <= date.2 <= 31,
{
    let days = (secs / 86400) as int;
    days_have_dates(days);
    let (y, m, d) = date_of(days);
    assert(is_date(days, y, m, d));
    (y, m, d)
}

proof fn lemma_stamp_parts(day: Seq<char>, clock: Seq<char>)
    requires
        day.len() == 10,
        clock.len() == 8,
    ensures
        ({
            let stamp = day + seq!['T'] + clock + seq!['Z'];
            &&& stamp.len() == 20
            &&& stamp[4] == day[4] && stamp[7] == day[7]
            &&& stamp[10] == 'T'
            &&& stamp[13] == clock[2] && stamp[16] == clock[5]
            &&& stamp[19] == 'Z'
            &&& stamp.skip(10) == seq!['T'] + clock + seq!['Z']
        }),
{
    let stamp = day + seq!['T'] + clock + seq!['Z'];
    assert(stamp.skip(10) =~= seq!['T'] + clock + seq!['Z']);
}

/// Up to the end of the year 9999 a time is a text of 20 characters, its separators
/// always at the same places. The time of day depends on the second of the day alone.
pub proof fn times_have_one_form(secs: nat)
    requires
        secs < 253_402_300_800,
    ensures
        iso_text(secs).len() == 20,
        iso_text(secs)[4] == '-' && iso_text(secs)[7] == '-',
        iso_text(secs)[10] == 'T',
        iso_text(secs)[13] == ':' && iso_text(secs)[16] == ':',
        iso_text(secs)[19] == 'Z',
        iso_text(secs).skip(10) == iso_text(secs % 86400).skip(10),
{
    let (y, m, d) = lemma_iso(secs);
    let (y2, m2, d2) = lemma_iso(secs % 86400);
    lemma_day_form(y, m, d);
    lemma_day_form(y2, m2, d2);
    lemma_clock_form(secs % 86400);
    let clock = clock_text(secs % 86400);
    assert((secs % 86400) % 86400 == secs % 86400);
    lemma_stamp_parts(day_text(y, m, d), clock);
    lemma_stamp_parts(day_text(y2, m2, d2), clock);
}

/// Up to the end of the year 9999 the text of a later time is later in the order of
/// texts. Two times never have the same text.
pub proof fn later_times_have_later_texts(s: nat, t: nat)
    requires
        s < t < 253_402_300_800,
    ensures
        text_less(iso_text(s), iso_text(t)),
        iso_text(s) != iso_text(t),
{
    let (y, m, d) = lemma_iso(s);
    let (y2, m2, d2) = lemma_iso(t);
    let (a, b) = (s % 86400, t % 86400);
    let (day, day2) = (day_text(y, m, d), day_text(y2, m2, d2));
    let none = Seq::<char>::empty();
    lemma_day_form(y, m, d);
    lemma_day_form(y2, m2, d2);
    lemma_clock_form(a);
    lemma_clock_form(b);
    if s / 86400 == t / 86400 {
        crate::calendar::dates_are_unique((s / 86400) as int, y, m, d, y2, m2, d2);
        lemma_clock_less(a, b);
        lemma_field_less(day + seq!['T'], clock_text(a), clock_text(b), seq!['Z'], seq!['Z']);
    } else {
        dates_are_ordered((s / 86400) as int, y, m, d, (t / 86400) as int, y2, m2, d2);
        lemma_day_less(y, m, d, y2, m2, d2);
        let (u, v) = (
            seq!['T'] + clock_text(a) + seq!['Z'],
            seq!['T'] + clock_text(b) + seq!['Z'],
        );
        lemma_field_less(none, day, day2, u, v);
        assert(iso_text(s) =~= none + day + u);
        assert(iso_text(t) =~= none + day2 + v);
    }
    crate::names::text_order_is_total(iso_text(s), iso_text(t));
}

} // verus!
