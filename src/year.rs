//! Year lengths and the table of month lengths.
use vstd::prelude::*;
use crate::molad::{is_leap, is_leap_year, start_of_year, year_start, lemma_start_near_molad,
    lemma_molad_bounds, YEAR_MIN, YEAR_MAX};
use crate::laws::{year_len, lemma_year_length_set, lemma_year_start_monotonic};

verus! {

/// Days in month `m` (1 = Nisan, 7 = Tishrei, 13 = Adar II) of year `y`:
/// Cheshvan has 30 days in a complete year, Kislev 29 in a deficient one,
/// Adar I has 30 days and Adar II 29 in a leap year, and a common year has no
/// thirteenth month.
pub open spec fn month_len(y: int, m: int) -> int {
    if m == 8 {
        if year_len(y) % 10 == 5 { 30 } else { 29 }
    } else if m == 9 {
        if year_len(y) % 10 == 3 { 29 } else { 30 }
    } else if m == 12 {
        if is_leap(y) { 30 } else { 29 }
    } else if m == 13 {
        if is_leap(y) { 29 } else { 0 }
    } else if m == 1 || m == 3 || m == 5 || m == 7 || m == 11 {
        30
    } else {
        29
    }
}

/// Place of month `m` in the year, counted from Tishrei.
pub open spec fn month_pos(m: int) -> int {
    if m >= 7 { m - 7 } else { m + 6 }
}

/// The month before `m`, going round from Tishrei.
pub open spec fn prev_month(m: int) -> int {
    if m == 1 { 13 } else { m - 1 }
}

/// Days from 1 Tishrei to the first of month `m` in year `y`.
pub open spec fn days_before_month(y: int, m: int) -> int
    decreases month_pos(m),
{
    if m == 7 || !(1 <= m <= 13) {
        0
    } else {
        days_before_month(y, prev_month(m)) + month_len(y, prev_month(m))
    }
}

/// A Hebrew date that exists: a month of its year, and a day of that month.
pub open spec fn hebrew_date_valid(y: int, m: int, d: int) -> bool {
    1 <= m <= 13 && 1 <= d <= month_len(y, m)
}

/// The day (since the epoch) of a Hebrew date.
pub open spec fn day_of_date(y: int, m: int, d: int) -> int {
    start_of_year(y) + days_before_month(y, m) + d - 1
}

/// The months of a year, from Tishrei round to Elul, fill the year exactly.
pub proof fn lemma_months_fill_year(y: int)
    ensures
        days_before_month(y, 6) + month_len(y, 6) == year_len(y),
{
    reveal_with_fuel(days_before_month, 14);
    lemma_year_length_set(y);
}

/// Each month lies inside its year.
pub proof fn lemma_month_in_year(y: int, m: int)
    requires
        1 <= m <= 13,
    ensures
        0 <= days_before_month(y, m),
        days_before_month(y, m) + month_len(y, m) <= year_len(y),
{
    reveal_with_fuel(days_before_month, 14);
    lemma_year_length_set(y);
}

/// Months follow one another from Tishrei without overlapping.
pub proof fn lemma_months_in_order(y: int, m1: int, m2: int)
    requires
        1 <= m1 <= 13,
        1 <= m2 <= 13,
        month_pos(m1) < month_pos(m2),
    ensures
        days_before_month(y, m1) + month_len(y, m1) <= days_before_month(y, m2),
    decreases month_pos(m2),
{
    let p = prev_month(m2);
    if p != m1 {
        lemma_months_in_order(y, m1, p);
    }
}

/// A Hebrew date falls between the new year of its year and the next one.
pub proof fn lemma_date_in_its_year(y: int, m: int, d: int)
    requires
        hebrew_date_valid(y, m, d),
    ensures
        start_of_year(y) <= day_of_date(y, m, d) < start_of_year(y + 1),
{
    lemma_month_in_year(y, m);
}

/// Two Hebrew dates on one day are one date.
pub proof fn lemma_day_of_date_injective(y1: int, m1: int, d1: int, y2: int, m2: int, d2: int)
    requires
        hebrew_date_valid(y1, m1, d1),
        hebrew_date_valid(y2, m2, d2),
        day_of_date(y1, m1, d1) == day_of_date(y2, m2, d2),
    ensures
        y1 == y2 && m1 == m2 && d1 == d2,
{
    lemma_date_in_its_year(y1, m1, d1);
    lemma_date_in_its_year(y2, m2, d2);
    if y1 < y2 {
        if y1 + 1 < y2 {
            lemma_year_start_monotonic(y1 + 1, y2);
        }
    } else if y2 < y1 {
        if y2 + 1 < y1 {
            lemma_year_start_monotonic(y2 + 1, y1);
        }
    }
    assert(y1 == y2);
    if month_pos(m1) < month_pos(m2) {
        lemma_months_in_order(y1, m1, m2);
    } else if month_pos(m2) < month_pos(m1) {
        lemma_months_in_order(y1, m2, m1);
    }
    assert(m1 == m2);
}

/// The new year's day of every year in range, and the end of that year, fit an `i32`.
pub proof fn lemma_start_bounds(y: int)
    requires
        YEAR_MIN <= y <= YEAR_MAX,
    ensures
        -2_000_000_000 < start_of_year(y) <= 2_000_000_002,
        -2_000_000_000 < start_of_year(y) + year_len(y) <= 2_000_000_002,
{
    lemma_molad_bounds(y);
    lemma_molad_bounds(y + 1);
    lemma_start_near_molad(y);
    lemma_start_near_molad(y + 1);
}

/// Days in Hebrew year `year`.
pub fn year_length(year: i32) -> (r: i32)
    requires
        YEAR_MIN <= year < YEAR_MAX,
    ensures
        r == year_len(year as int),
        r == 353 || r == 354 || r == 355 || r == 383 || r == 384 || r == 385,
        r >= 383 <==> is_leap(year as int),
{
    proof {
        lemma_year_length_set(year as int);
    }
    let rosh1 = year_start(year);
    let rosh2 = year_start(year + 1);
    rosh2 - rosh1
}

/// Days in each month of `year`, indexed by month number (1 = Nisan,
/// 13 = Adar II, which has no days in a common year); slot 0 is unused.
pub fn year_months(year: i32) -> (r: [u8; 14])
    requires
        YEAR_MIN <= year < YEAR_MAX,
    ensures
        r@[0] == 0,
        forall|m: int| 1 <= m <= 13 ==> r@[m] == month_len(year as int, m),
{
    let leap = is_leap_year(year);
    let length = year_length(year);
    proof {
        lemma_year_length_set(year as int);
    }
    let rem = length.checked_rem_euclid(10).unwrap();
    // a complete year lengthens Cheshvan, a deficient one shortens Kislev
    let cheshvan: u8 = if rem == 5 { 30 } else { 29 };
    let kislev: u8 = if rem == 3 { 29 } else { 30 };
    let adar1: u8 = if leap { 30 } else { 29 };
    let adar2: u8 = if leap { 29 } else { 0 };
    let r = [0, 30, 29, 30, 29, 30, 29, 30, cheshvan, kislev, 29, 30, adar1, adar2];
    assert(r@[0] == 0 && r@[1] == 30 && r@[2] == 29 && r@[3] == 30 && r@[4] == 29 && r@[5] == 30
        && r@[6] == 29 && r@[7] == 30 && r@[8] == cheshvan && r@[9] == kislev && r@[10] == 29
        && r@[11] == 30 && r@[12] == adar1 && r@[13] == adar2);
    r
}

/// Whether (`year`, `month`, `day`) is a date of the Hebrew calendar.
pub fn date_is_valid(year: i32, month: u8, day: u8) -> (r: bool)
    requires
        YEAR_MIN <= year < YEAR_MAX,
    ensures
        r == hebrew_date_valid(year as int, month as int, day as int),
{
    if month < 1 || month > 13 || day < 1 || day > 30 {
        return false;
    }
    if month == 13 {
        return day <= 29 && is_leap_year(year);
    }
    if day == 30 {
        if month == 1 || month == 3 || month == 5 || month == 7 || month == 11 {
            return true;
        } else if month == 2 || month == 4 || month == 6 || month == 10 {
            return false;
        } else if month == 12 {
            return is_leap_year(year);
        } else if month == 8 {
            let len = year_length(year);
            // complete year (355 or 385)
            return len.checked_rem_euclid(10).unwrap() == 5;
        } else {
            let len = year_length(year);
            proof {
                lemma_year_length_set(year as int);
            }
            // complete or regular year (354, 355, 384 or 385)
            return len.checked_rem_euclid(10).unwrap() >= 4;
        }
    }
    true
}

} // verus!
