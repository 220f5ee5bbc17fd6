//! The civil (proleptic Gregorian) calendar: which day a date is, and which
//! date a day is.

use vstd::prelude::*;

verus! {

pub open spec fn leap_year(y: int) -> bool {
    y % 4 == 0 && (y % 100 != 0 || y % 400 == 0)
}

pub open spec fn year_length(y: int) -> int {
    if leap_year(y) {
        366
    } else {
        365
    }
}

pub open spec fn month_length(y: int, m: int) -> int {
    if m == 2 {
        if leap_year(y) {
            29
        } else {
            28
        }
    } else if m == 4 || m == 6 || m == 9 || m == 11 {
        30
    } else {
        31
    }
}

/// The number of days from 1 January 1970 to 1 January of year `y`.
pub open spec fn year_start(y: int) -> int
    decreases if y >= 1970 { y - 1970 } else { 1970 - y },
{
    if y == 1970 {
        0
    } else if y > 1970 {
        year_start(y - 1) + year_length(y - 1)
    } else {
        year_start(y + 1) - year_length(y)
    }
}

/// The number of days from the first of January to the first of month `m`.
pub open spec fn month_start(y: int, m: int) -> int
    decreases m,
{
    if m <= 1 {
        0
    } else {
        month_start(y, m - 1) + month_length(y, m - 1)
    }
}

/// Whether there is a day `d` in month `m` of year `y`.
pub open spec fn valid_date(y: int, m: int, d: int) -> bool {
    1 <= m <= 12 && 1 <= d <= month_length(y, m)
}

/// The number of days from 1 January 1970 to the date.
pub open spec fn day_number(y: int, m: int, d: int) -> int {
    year_start(y) + month_start(y, m) + d - 1
}

proof fn lemma_year_start(y: int)
    ensures
        year_start(y) == 365 * (y - 1970) + (y - 1) / 4 - (y - 1) / 100 + (y - 1) / 400 - 477,
    decreases if y >= 1970 { y - 1970 } else { 1970 - y },
{
    if y > 1970 {
        lemma_year_start(y - 1);
    } else if y < 1970 {
        lemma_year_start(y + 1);
    }
}

/// The days of four hundred years, counted from the first of March: `yoe` is
/// the year that day `doe` falls in.
proof fn lemma_year_of_era(doe: int, yoe: int)
    requires
        0 <= doe < 146_097,
        yoe == (doe - doe / 1460 + doe / 36_524 - doe / 146_096) / 365,
    ensures
        0 <= yoe < 400,
        0 <= doe - (365 * yoe + yoe / 4 - yoe / 100),
        doe - (365 * yoe + yoe / 4 - yoe / 100) < 365 + (if leap_year(yoe + 1) { 1int } else { 0 }),
{
}

/// The first of March of year `y`.
proof fn lemma_first_of_march(y: int)
    ensures
        day_number(y, 3, 1) == 365 * y + y / 4 - y / 100 + y / 400 - 719_468,
        day_number(y + 1, 1, 1) == day_number(y, 3, 1) + 306,
{
    lemma_year_start(y);
    lemma_year_start(y + 1);
    reveal_with_fuel(month_start, 4);
}

/// The date that day `doy` of the year from the first of March of `y` is.
proof fn lemma_date_in_march_year(y: int, doy: int, mp: int)
    requires
        0 <= doy < 365 + (if leap_year(y + 1) { 1int } else { 0 }),
        mp == (5 * doy + 2) / 153,
    ensures
        0 <= mp < 12,
        ({
            let d = doy - (153 * mp + 2) / 5 + 1;
            let m = if mp < 10 { mp + 3 } else { mp - 9 };
            let y2 = if m <= 2 { y + 1 } else { y };
            valid_date(y2, m, d) && day_number(y2, m, d) == day_number(y, 3, 1) + doy
        }),
{
    lemma_first_of_march(y);
    reveal_with_fuel(month_start, 13);
    assert(0 <= mp < 12);
    if mp == 0 {
    } else if mp == 1 {
    } else if mp == 2 {
    } else if mp == 3 {
    } else if mp == 4 {
    } else if mp == 5 {
    } else if mp == 6 {
    } else if mp == 7 {
    } else if mp == 8 {
    } else if mp == 9 {
    } else if mp == 10 {
    } else {
        assert(mp == 11);
    }
}

/// Four hundred years later the leap years are the same.
proof fn lemma_four_hundred_years(era: int, yoe: int)
    requires
        0 <= yoe < 400,
    ensures
        leap_year(yoe + era * 400 + 1) == leap_year(yoe + 1),
        day_number(yoe + era * 400, 3, 1) == era * 146_097 + 365 * yoe + yoe / 4 - yoe / 100
            - 719_468,
{
    let y = yoe + era * 400;
    lemma_first_of_march(y);
    assert((y + 1) % 4 == (yoe + 1) % 4);
    assert((y + 1) % 100 == (yoe + 1) % 100);
    assert((y + 1) % 400 == (yoe + 1) % 400);
    assert(y / 4 == era * 100 + yoe / 4);
    assert(y / 100 == era * 4 + yoe / 100);
    assert(y / 400 == era);
}

/// Day `doe` of four hundred years numbered `era`, as a year from the first of
/// March and a day of it.
proof fn lemma_march_year(era: int, doe: int, yoe: int)
    requires
        0 <= doe < 146_097,
        yoe == (doe - doe / 1460 + doe / 36_524 - doe / 146_096) / 365,
    ensures
        0 <= yoe < 400,
        ({
            let y = yoe + era * 400;
            let doy = doe - (365 * yoe + yoe / 4 - yoe / 100);
            &&& 0 <= doy < 365 + (if leap_year(y + 1) { 1int } else { 0 })
            &&& day_number(y, 3, 1) + doy == era * 146_097 + doe - 719_468
        }),
{
    lemma_year_of_era(doe, yoe);
    lemma_four_hundred_years(era, yoe);
}

/// The date that is `days` days after 1 January 1970, as year, month and day.
pub fn civil_from_days(days: i64) -> (r: (i64, i64, i64))
    requires
        -0x1000_0000_0000_0000 <= days <= 0x1000_0000_0000_0000,
    ensures
        valid_date(r.0 as int, r.1 as int, r.2 as int),
        day_number(r.0 as int, r.1 as int, r.2 as int) == days,
        -0x1000_0000_0000_0000 <= r.0 <= 0x1000_0000_0000_0000,
{
    let z: i64 = days + 719_468;
    let era: i64 = if z >= 0 {
        z / 146_097
    } else {
        -((146_096 - z) / 146_097)
    };
    let doe: i64 = z - era * 146_097;
    let yoe: i64 = (doe - doe / 1460 + doe / 36_524 - doe / 146_096) / 365;
    proof {
        lemma_march_year(era as int, doe as int, yoe as int);
    }
    let y: i64 = yoe + era * 400;
    let doy: i64 = doe - (365 * yoe + yoe / 4 - yoe / 100);
    let mp: i64 = (5 * doy + 2) / 153;
    proof {
        lemma_date_in_march_year(y as int, doy as int, mp as int);
    }
    let d: i64 = doy - (153 * mp + 2) / 5 + 1;
    let m: i64 = if mp < 10 {
        mp + 3
    } else {
        mp - 9
    };
    let y2: i64 = if m <= 2 {
        y + 1
    } else {
        y
    };
    (y2, m, d)
}

proof fn lemma_month_start_bounds(y: int, m: int)
    requires
        1 <= m <= 12,
    ensures
        0 <= month_start(y, m),
        month_start(y, m) + month_length(y, m) <= year_length(y),
        month_start(y, 12) + month_length(y, 12) == year_length(y),
{
    reveal_with_fuel(month_start, 13);
    if m == 1 {
    } else if m == 2 {
    } else if m == 3 {
    } else if m == 4 {
    } else if m == 5 {
    } else if m == 6 {
    } else if m == 7 {
    } else if m == 8 {
    } else if m == 9 {
    } else if m == 10 {
    } else if m == 11 {
    } else {
        assert(m == 12);
    }
}

proof fn lemma_months_in_order(y: int, m: int, n: int)
    requires
        1 <= m < n <= 12,
    ensures
        month_start(y, m) + month_length(y, m) <= month_start(y, n),
    decreases n - m,
{
    if m + 1 < n {
        lemma_months_in_order(y, m + 1, n);
    }
}

proof fn lemma_years_in_order(y: int, z: int)
    requires
        y < z,
    ensures
        year_start(y) + year_length(y) <= year_start(z),
    decreases z - y,
{
    if y + 1 < z {
        lemma_years_in_order(y + 1, z);
    }
    lemma_year_start(y);
    lemma_year_start(y + 1);
}

proof fn lemma_month_start_later(y: int, m: int)
    ensures
        month_start(y + 400, m) == month_start(y, m),
    decreases m,
{
    assert(leap_year(y + 400) == leap_year(y)) by {
        assert((y + 400) % 4 == y % 4);
        assert((y + 400) % 100 == y % 100);
        assert((y + 400) % 400 == y % 400);
    }
    if m > 1 {
        lemma_month_start_later(y, m - 1);
    }
}

/// The days from 1 January 1970 to 31 December 9999 have their dates in these
/// years.
pub proof fn year_is_within(y: int, m: int, d: int)
    requires
        valid_date(y, m, d),
        0 <= day_number(y, m, d) <= 2_932_896,
    ensures
        1970 <= y <= 9999,
{
    lemma_month_start_bounds(y, m);
    lemma_year_start(y);
    lemma_year_start(y + 1);
}

/// Four hundred years on, the same date is there and falls 146,097 days later.
pub proof fn dates_repeat(y: int, m: int, d: int)
    ensures
        valid_date(y + 400, m, d) == valid_date(y, m, d),
        day_number(y + 400, m, d) == day_number(y, m, d) + 146_097,
{
    assert(leap_year(y + 400) == leap_year(y)) by {
        assert((y + 400) % 4 == y % 4);
        assert((y + 400) % 100 == y % 100);
        assert((y + 400) % 400 == y % 400);
    }
    lemma_month_start_later(y, m);
    lemma_year_start(y);
    lemma_year_start(y + 400);
}

/// No two dates fall on the same day, and a later date has a larger number:
/// the order of dates is the order of the days they fall on.
pub proof fn dates_are_in_order(y: int, m: int, d: int, y2: int, m2: int, d2: int)
    requires
        valid_date(y, m, d),
        valid_date(y2, m2, d2),
    ensures
        day_number(y, m, d) < day_number(y2, m2, d2) <==> y < y2 || (y == y2 && (m < m2 || (m == m2
            && d < d2))),
        day_number(y, m, d) == day_number(y2, m2, d2) <==> y == y2 && m == m2 && d == d2,
{
    lemma_month_start_bounds(y, m);
    lemma_month_start_bounds(y2, m2);
    if y < y2 {
        lemma_years_in_order(y, y2);
    } else if y2 < y {
        lemma_years_in_order(y2, y);
    } else if m < m2 {
        lemma_months_in_order(y, m, m2);
    } else if m2 < m {
        lemma_months_in_order(y, m2, m);
    }
}

/// Each day has the number after that of the day before, over the ends of months
/// and years, and the first is the first of January 1970.
pub proof fn days_are_numbered_one_by_one(y: int, m: int, d: int)
    requires
        valid_date(y, m, d),
    ensures
        day_number(1970, 1, 1) == 0,
        valid_date(y, m, d + 1) ==> day_number(y, m, d + 1) == day_number(y, m, d) + 1,
        !valid_date(y, m, d + 1) && m < 12 ==> valid_date(y, m + 1, 1) && day_number(y, m + 1, 1)
            == day_number(y, m, d) + 1,
        !valid_date(y, m, d + 1) && m == 12 ==> valid_date(y + 1, 1, 1) && day_number(y + 1, 1, 1)
            == day_number(y, m, d) + 1,
{
    reveal_with_fuel(month_start, 14);
    reveal_with_fuel(year_start, 2);
}

/// Which dates there are: every month has 28 days, all but February have 30, seven
/// have 31, and February has a 29th in years that four divides, unless a hundred
/// divides them and four hundred does not.
pub proof fn months_have_their_lengths(y: int, m: int, d: int)
    ensures
        1 <= m <= 12 && 1 <= d <= 28 ==> valid_date(y, m, d),
        valid_date(y, 2, 29) <==> y % 4 == 0 && (y % 100 != 0 || y % 400 == 0),
        !valid_date(y, 2, 30),
        1 <= m <= 12 && m != 2 ==> valid_date(y, m, 29) && valid_date(y, m, 30),
        valid_date(y, m, 31) <==> m == 1 || m == 3 || m == 5 || m == 7 || m == 8 || m == 10 || m
            == 12,
        m < 1 || m > 12 || d < 1 || d > 31 ==> !valid_date(y, m, d),
{
}

} // verus!
