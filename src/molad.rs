//! The molad of Tishrei and the day on which each Hebrew year begins.
//!
//! Times are counted in chalakim (1080 to the hour) from the molad tohu epoch.
//! Day 1 of the epoch is a Monday; a day begins at 6pm.
use vstd::prelude::*;

verus! {

/// Chalakim in one day.
pub const PARTS_PER_DAY: i64 = 24 * 1080;

/// Chalakim in one synodic month: 29 days, 12 hours and 793 parts.
pub const PARTS_PER_MONTH: i64 = (29 * 24 + 12) * 1080 + 793;

/// The molad tohu: day 1, hour 5, part 204.
pub const MOLAD_TOHU: i64 = (24 + 5) * 1080 + 204;

/// Smallest Hebrew year this library computes with (its day numbers fit an `i32`).
pub const YEAR_MIN: i32 = -5000000;

/// Largest Hebrew year this library computes with.
pub const YEAR_MAX: i32 = 5000000;

/// A year of thirteen months: its place in the 19-year cycle is one of
/// 3, 6, 8, 11, 14, 17 or 19.
pub open spec fn is_leap(y: int) -> bool {
    let r = y % 19;
    r == 0 || r == 3 || r == 6 || r == 8 || r == 11 || r == 14 || r == 17
}

pub open spec fn months_in_year(y: int) -> int {
    if is_leap(y) { 13 } else { 12 }
}

/// Months in the first `n` years of a 19-year cycle.
pub open spec fn cycle_months(n: nat) -> int
    decreases n,
{
    if n == 0 {
        0
    } else {
        cycle_months((n - 1) as nat) + months_in_year(n as int)
    }
}

/// Months elapsed from the epoch's Tishrei to the Tishrei of year `y`.
pub open spec fn months_before(y: int) -> int {
    235 * ((y - 1) / 19) + cycle_months(((y - 1) % 19) as nat)
}

/// The molad of Tishrei of year `y`, in chalakim since the epoch.
pub open spec fn molad_of(y: int) -> int {
    31524 + 765433 * months_before(y)
}

pub open spec fn molad_day(y: int) -> int {
    molad_of(y) / 25920
}

pub open spec fn molad_parts(y: int) -> int {
    molad_of(y) % 25920
}

/// The day on which 1 Tishrei of year `y` falls, after the four postponements:
/// a molad at or after noon; Sunday, Wednesday or Friday (lo ADU); GaTaRaD in
/// a common year; BeTUTaKPaT after a leap year.
#[verifier::opaque]
pub open spec fn start_of_year(y: int) -> int {
    let day = molad_day(y);
    let parts = molad_parts(y);
    let r1 = if parts >= 18 * 1080 { day + 1 } else { day };
    let r2 = if r1 % 7 == 0 || r1 % 7 == 3 || r1 % 7 == 5 { r1 + 1 } else { r1 };
    let r3 = if !is_leap(y) && day % 7 == 2 && parts >= 9 * 1080 + 204 { day + 2 } else { r2 };
    if is_leap(y - 1) && day % 7 == 1 && parts >= 15 * 1080 + 589 { day + 1 } else { r3 }
}

/// The new year comes at most two days after the day of its molad.
pub proof fn lemma_start_near_molad(y: int)
    ensures
        molad_day(y) <= start_of_year(y) <= molad_day(y) + 2,
{
    reveal(start_of_year);
}

pub open spec fn year_in_range(y: int) -> bool {
    YEAR_MIN <= y <= YEAR_MAX
}

proof fn lemma_cycle_months_bounds(n: nat)
    ensures
        12 * n <= cycle_months(n) <= 13 * n,
    decreases n,
{
    if n > 0 {
        lemma_cycle_months_bounds((n - 1) as nat);
    }
}

/// The molad of every year in range lies well inside `i64`, and its day in `i32`.
pub proof fn lemma_molad_bounds(y: int)
    requires
        YEAR_MIN <= y <= YEAR_MAX + 1,
    ensures
        -2_000_000_000 * 25920 < molad_of(y) < 2_000_000_000 * 25920,
        -2_000_000_000 < molad_day(y) < 2_000_000_000,
{
    let q = (y - 1) / 19;
    let r = (y - 1) % 19;
    lemma_cycle_months_bounds(r as nat);
    assert(-263200 <= q <= 263200);
    let m = months_before(y);
    assert(-61852000 - 234 <= m <= 61852000 + 234);
    assert(-2_000_000_000 * 25920 < molad_of(y) < 2_000_000_000 * 25920);
}

/// Whether the Hebrew year `year` has thirteen months.
pub fn is_leap_year(year: i32) -> (r: bool)
    ensures
        r == is_leap(year as int),
{
    let m = year.checked_rem_euclid(19).unwrap();
    m == 0 || m == 3 || m == 6 || m == 8 || m == 11 || m == 14 || m == 17
}

/// The molad of Tishrei of `year`, in chalakim since the epoch.
pub fn molad(year: i32) -> (r: i64)
    requires
        year_in_range(year as int),
    ensures
        r == molad_of(year as int),
{
    let parts_year: i64 = 12 * PARTS_PER_MONTH;
    let parts_lyear: i64 = 13 * PARTS_PER_MONTH;
    let parts_cycle: i64 = 12 * parts_year + 7 * parts_lyear;
    let total_cycles = (year - 1).checked_div_euclid(19).unwrap();
    let year_in_cycle = (year - 1).checked_rem_euclid(19).unwrap();
    assert(-263200 <= total_cycles <= 263200);
    let mut molad: i64 = MOLAD_TOHU + total_cycles as i64 * parts_cycle;
    let mut i: i32 = 0;
    while i < year_in_cycle
        invariant
            0 <= i <= year_in_cycle,
            year_in_cycle == (year - 1) % 19,
            total_cycles == (year - 1) / 19,
            -263200 <= total_cycles <= 263200,
            parts_year == 12 * 765433,
            parts_lyear == 13 * 765433,
            molad == 31524 + 765433 * (235 * total_cycles + cycle_months(i as nat)),
        decreases year_in_cycle - i,
    {
        proof {
            lemma_cycle_months_bounds(i as nat);
        }
        if is_leap_year(i + 1) {
            molad = molad + parts_lyear;
        } else {
            molad = molad + parts_year;
        }
        i = i + 1;
    }
    molad
}

/// The molad of `year` as (day since the epoch, hour after 6pm, part of the hour).
pub fn molad_components(year: i32) -> (r: (i32, u8, u16))
    requires
        year_in_range(year as int),
    ensures
        r.0 == molad_day(year as int),
        r.1 == (molad_of(year as int) / 1080) % 24,
        r.2 == molad_of(year as int) % 1080,
{
    let m = molad(year);
    proof {
        lemma_molad_bounds(year as int);
    }
    let day = m.checked_div_euclid(PARTS_PER_DAY).unwrap();
    let hours = m.checked_div_euclid(1080).unwrap();
    let hour = hours.checked_rem_euclid(24).unwrap();
    let part = m.checked_rem_euclid(1080).unwrap();
    (day as i32, hour as u8, part as u16)
}

/// The day (since the epoch) on which 1 Tishrei of `year` falls.
pub fn year_start(year: i32) -> (r: i32)
    requires
        year_in_range(year as int),
    ensures
        r == start_of_year(year as int),
{
    let m = molad(year);
    proof {
        lemma_molad_bounds(year as int);
        reveal(start_of_year);
    }
    let day = m.checked_div_euclid(PARTS_PER_DAY).unwrap() as i32;
    let parts = m.checked_rem_euclid(PARTS_PER_DAY).unwrap();
    let weekday = day.checked_rem_euclid(7).unwrap();
    let mut rosh = day;
    // a molad at or after noon postpones the new year by a day
    if parts >= 18 * 1080 {
        rosh = rosh + 1;
    }
    // lo ADU: never on Sunday, Wednesday or Friday
    let w = rosh.checked_rem_euclid(7).unwrap();
    if w == 0 || w == 3 || w == 5 {
        rosh = rosh + 1;
    }
    // GaTaRaD
    if !is_leap_year(year) && weekday == 2 && parts >= 9 * 1080 + 204 {
        rosh = day + 2;
    }
    // BeTUTaKPaT
    if is_leap_year(year - 1) && weekday == 1 && parts >= 15 * 1080 + 589 {
        rosh = day + 1;
    }
    rosh
}

} // verus!
