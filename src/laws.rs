//! What holds of the calendar for every year: the Metonic cycle, the six year
//! lengths, and the order of new years.
use vstd::prelude::*;
use vstd::arithmetic::div_mod::{lemma_fundamental_div_mod_converse, lemma_mod_multiples_vanish};
use crate::molad::{is_leap, months_in_year, cycle_months, months_before, molad_of, molad_day,
    molad_parts, start_of_year};

verus! {

/// Days from the day of the molad to the new year, as the four postponement
/// rules give them from the molad's weekday and its time in the day.
pub open spec fn postponement(weekday: int, parts: int, leap: bool, prev_leap: bool) -> int {
    let r1: int = if parts >= 18 * 1080 { 1 } else { 0 };
    let w = (weekday + r1) % 7;
    let r2 = if w == 0 || w == 3 || w == 5 { r1 + 1 } else { r1 };
    let r3 = if !leap && weekday == 2 && parts >= 9 * 1080 + 204 { 2 } else { r2 };
    if prev_leap && weekday == 1 && parts >= 15 * 1080 + 589 { 1 } else { r3 }
}

/// Days in Hebrew year `y`.
pub open spec fn year_len(y: int) -> int {
    start_of_year(y + 1) - start_of_year(y)
}

/// How many of the `n` years from `y` on are leap years.
pub open spec fn leap_count(y: int, n: nat) -> int
    decreases n,
{
    if n == 0 {
        0
    } else {
        leap_count(y, (n - 1) as nat) + if is_leap(y + n - 1) { 1int } else { 0 }
    }
}

proof fn lemma_no_two_leap_years(y: int)
    ensures
        !(is_leap(y) && is_leap(y + 1)),
{
    let q = y / 19;
    let r = y % 19;
    if r < 18 {
        lemma_fundamental_div_mod_converse(y + 1, 19, q, r + 1);
    } else {
        lemma_fundamental_div_mod_converse(y + 1, 19, q + 1, 0);
    }
}

proof fn lemma_months_step(y: int)
    ensures
        months_before(y + 1) == months_before(y) + months_in_year(y),
{
    let q = (y - 1) / 19;
    let r = (y - 1) % 19;
    if r < 18 {
        lemma_fundamental_div_mod_converse(y, 19, q, r + 1);
        assert(cycle_months((r + 1) as nat) == cycle_months(r as nat) + months_in_year(r + 1));
    } else {
        lemma_fundamental_div_mod_converse(y, 19, q + 1, 0);
        lemma_full_cycle();
    }
}

proof fn lemma_full_cycle()
    ensures
        cycle_months(18) == 222,
{
    reveal_with_fuel(cycle_months, 19);
}

proof fn lemma_start_by_postponement(y: int)
    ensures
        start_of_year(y) == molad_day(y) + postponement(molad_day(y) % 7, molad_parts(y),
            is_leap(y), is_leap(y - 1)),
{
    reveal(start_of_year);
    let d = molad_day(y);
    lemma_fundamental_div_mod_converse(d, 7, d / 7, d % 7);
    if d % 7 < 6 {
        lemma_fundamental_div_mod_converse(d + 1, 7, d / 7, d % 7 + 1);
    } else {
        lemma_fundamental_div_mod_converse(d + 1, 7, d / 7 + 1, 0);
    }
}

/// The year length, from the molad's place in the week alone.
proof fn lemma_length_in_week(k: int, p: int, ly0: bool, ly: bool, ly1: bool)
    requires
        0 <= k < 7,
        0 <= p < 25920,
        !(ly0 && ly),
        !(ly && ly1),
    ensures
        ({
            let c: int = if ly { 383 } else { 354 };
            let e: int = if ly { 23269 } else { 9516 };
            let t: int = if p + e >= 25920 { 1 } else { 0 };
            let len = c + t + postponement((k + c + t) % 7, p + e - 25920 * t, ly1, ly)
                - postponement(k, p, ly, ly0);
            if ly { 383 <= len <= 385 } else { 353 <= len <= 355 }
        }),
{
}

/// Every Hebrew year has 353, 354 or 355 days if it has twelve months, and
/// 383, 384 or 385 days if it has thirteen.
pub proof fn lemma_year_length_set(y: int)
    ensures
        year_len(y) == 353 || year_len(y) == 354 || year_len(y) == 355 || year_len(y) == 383
            || year_len(y) == 384 || year_len(y) == 385,
        is_leap(y) <==> year_len(y) >= 383,
{
    lemma_no_two_leap_years(y - 1);
    lemma_no_two_leap_years(y);
    lemma_months_step(y);
    lemma_start_by_postponement(y);
    lemma_start_by_postponement(y + 1);
    let ly = is_leap(y);
    let m = molad_of(y);
    let d = molad_day(y);
    let p = molad_parts(y);
    let k = d % 7;
    let c: int = if ly { 383 } else { 354 };
    let e: int = if ly { 23269 } else { 9516 };
    let t: int = if p + e >= 25920 { 1 } else { 0 };
    assert(molad_of(y + 1) == m + 25920 * c + e);
    lemma_fundamental_div_mod_converse(m, 25920, d, p);
    lemma_fundamental_div_mod_converse(molad_of(y + 1), 25920, d + c + t, p + e - 25920 * t);
    lemma_fundamental_div_mod_converse(d, 7, d / 7, k);
    lemma_mod_multiples_vanish(d / 7, k + c + t, 7);
    assert((d + c + t) % 7 == (k + c + t) % 7);
    lemma_length_in_week(k, p, is_leap(y - 1), ly, is_leap(y + 1));
}

/// Each new year comes strictly after the one before it.
pub proof fn lemma_year_start_increasing(y: int)
    ensures
        start_of_year(y) < start_of_year(y + 1),
{
    lemma_year_length_set(y);
}

/// New years are in the order of their years.
pub proof fn lemma_year_start_monotonic(a: int, b: int)
    requires
        a < b,
    ensures
        start_of_year(a) < start_of_year(b),
        start_of_year(b) - start_of_year(a) >= b - a,
    decreases b - a,
{
    lemma_year_start_increasing(b - 1);
    if a < b - 1 {
        lemma_year_start_monotonic(a, b - 1);
    }
}

proof fn lemma_leap_count_front(y: int, n: nat)
    ensures
        leap_count(y, n + 1) == (if is_leap(y) { 1int } else { 0 }) + leap_count(y + 1, n),
    decreases n,
{
    if n > 0 {
        lemma_leap_count_front(y, (n - 1) as nat);
        assert(leap_count(y, n + 1) == leap_count(y, n) + if is_leap(y + n) { 1int } else { 0 });
        assert(leap_count(y + 1, n) == leap_count(y + 1, (n - 1) as nat) + if is_leap(y + n) {
            1int
        } else {
            0
        });
    } else {
        assert(leap_count(y, 1) == leap_count(y, 0) + if is_leap(y) { 1int } else { 0 });
    }
}

proof fn lemma_leap_count_shift(y: int)
    ensures
        leap_count(y, 19) == leap_count(y + 1, 19),
{
    lemma_leap_count_front(y, 19);
    assert(leap_count(y, 20) == leap_count(y, 19) + if is_leap(y + 19) { 1int } else { 0 });
    lemma_fundamental_div_mod_converse(y + 19, 19, y / 19 + 1, y % 19);
}

/// Any 19 consecutive Hebrew years hold exactly seven leap years.
pub proof fn lemma_seven_leap_years_in_nineteen(y: int)
    ensures
        leap_count(y, 19) == 7,
    decreases (if y >= 0 { y } else { -y }),
{
    if y == 0 {
        reveal_with_fuel(leap_count, 20);
    } else if y > 0 {
        lemma_seven_leap_years_in_nineteen(y - 1);
        lemma_leap_count_shift(y - 1);
    } else {
        lemma_seven_leap_years_in_nineteen(y + 1);
        lemma_leap_count_shift(y);
    }
}

} // verus!
