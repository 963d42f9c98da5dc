//! A Hebrew date, and its conversion to and from Julian day numbers.
use vstd::prelude::*;
use crate::molad::{is_leap, is_leap_year, start_of_year, year_start, YEAR_MIN, YEAR_MAX};
use crate::laws::{year_len, lemma_year_start_increasing};
use crate::year::{month_len, month_pos, prev_month, days_before_month, hebrew_date_valid,
    day_of_date, year_months, date_is_valid, lemma_months_fill_year, lemma_start_bounds,
    lemma_month_in_year, lemma_day_of_date_injective};

verus! {

/// Julian day number of the day before day 1 of the epoch (1 Tishrei of year 1).
pub const JD_EPOCH: i32 = 347997;

/// The Julian day number of a Hebrew date.
pub open spec fn julian_day_of(y: int, m: int, d: int) -> int {
    day_of_date(y, m, d) + JD_EPOCH
}

/// Julian day numbers whose Hebrew year lies in this library's range.
pub open spec fn julian_day_in_range(jd: int) -> bool {
    start_of_year(YEAR_MIN as int) <= jd - JD_EPOCH < start_of_year(YEAR_MAX as int)
}

/// A Hebrew date taken to its Julian day and back is the same date: every
/// real date `h2` on the Julian day of a real date `h` is `h`.
pub proof fn lemma_julian_day_round_trip(h: (int, int, int), h2: (int, int, int))
    requires
        hebrew_date_valid(h.0, h.1, h.2),
        hebrew_date_valid(h2.0, h2.1, h2.2),
        julian_day_of(h2.0, h2.1, h2.2) == julian_day_of(h.0, h.1, h.2),
    ensures
        h2 == h,
{
    lemma_day_of_date_injective(h.0, h.1, h.2, h2.0, h2.1, h2.2);
}

/// English name of month `m`; month 12 is Adar I in a leap year.
pub open spec fn month_name_of(leap: bool, m: int) -> Seq<char> {
    if m == 1 { "Nisan"@ }
    else if m == 2 { "Iyar"@ }
    else if m == 3 { "Sivan"@ }
    else if m == 4 { "Tamuz"@ }
    else if m == 5 { "Av"@ }
    else if m == 6 { "Elul"@ }
    else if m == 7 { "Tishrei"@ }
    else if m == 8 { "Cheshvan"@ }
    else if m == 9 { "Kislev"@ }
    else if m == 10 { "Tevet"@ }
    else if m == 11 { "Shvat"@ }
    else if m == 12 { if leap { "Adar1"@ } else { "Adar"@ } }
    else { "Adar2"@ }
}

/// A date of the Hebrew calendar: month 1 is Nisan, 7 Tishrei, 12 Adar (Adar I
/// in a leap year) and 13 Adar II.
#[derive(Debug, Clone, Copy, PartialEq, Eq, Structural)]
pub struct JDate {
    year: i32,
    month: u8,
    day: u8,
}

impl View for JDate {
    type V = (int, int, int);

    closed spec fn view(&self) -> (int, int, int) {
        (self.year as int, self.month as int, self.day as int)
    }
}

impl JDate {
    /// A `JDate` is determined by its year, month and day.
    pub proof fn lemma_view_determines(a: JDate, b: JDate)
        requires
            a@ == b@,
        ensures
            a == b,
    {
    }

    #[verifier::type_invariant]
    spec fn inv(self) -> bool {
        &&& YEAR_MIN <= self.year < YEAR_MAX
        &&& hebrew_date_valid(self.year as int, self.month as int, self.day as int)
    }

    /// The date (`year`, `month`, `day`), if it exists.
    pub fn new(year: i32, month: u8, day: u8) -> (r: Option<JDate>)
        requires
            YEAR_MIN <= year < YEAR_MAX,
        ensures
            r.is_some() == hebrew_date_valid(year as int, month as int, day as int),
            r.is_some() ==> r.unwrap()@ == (year as int, month as int, day as int),
    {
        if !date_is_valid(year, month, day) {
            return None;
        }
        Some(JDate { year, month, day })
    }

    /// The Hebrew date of Julian day `jd`: the one real date on that day
    /// (`lemma_julian_day_round_trip` shows there is no other).
    pub fn from_jd(jd: i32) -> (r: JDate)
        requires
            julian_day_in_range(jd as int),
        ensures
            hebrew_date_valid(r@.0, r@.1, r@.2),
            julian_day_of(r@.0, r@.1, r@.2) == jd,
    {
        proof {
            lemma_start_bounds(YEAR_MIN as int);
            lemma_start_bounds(YEAR_MAX as int);
        }
        let ed = jd - JD_EPOCH;
        // a first guess at the year, from the mean year of 365.2468 days
        let guess = (ed as i64 * 100).checked_div_euclid(36525).unwrap();
        let mut year: i32 = if guess < YEAR_MIN as i64 {
            YEAR_MIN
        } else if guess >= YEAR_MAX as i64 {
            YEAR_MAX - 1
        } else {
            guess as i32
        };
        while year_start(year) < ed
            invariant
                YEAR_MIN <= year <= YEAR_MAX,
                julian_day_in_range(jd as int),
                ed == jd - JD_EPOCH,
            decreases YEAR_MAX - year,
        {
            year = year + 1;
        }
        proof {
            lemma_year_start_increasing(year as int);
        }
        while year_start(year) > ed
            invariant
                YEAR_MIN <= year <= YEAR_MAX,
                julian_day_in_range(jd as int),
                ed == jd - JD_EPOCH,
                ed < start_of_year(year + 1),
            decreases year - YEAR_MIN,
        {
            year = year - 1;
        }
        proof {
            lemma_months_fill_year(year as int);
            lemma_start_bounds(year as int);
        }
        let start = year_start(year);
        let days_in_month = year_months(year);
        let mut days = start;
        let mut month: usize = 7;
        while days + days_in_month[month] as i32 <= ed
            invariant
                YEAR_MIN <= year < YEAR_MAX,
                1 <= month <= 13,
                start == start_of_year(year as int),
                days == start + days_before_month(year as int, month as int),
                days <= ed < start + year_len(year as int),
                days_before_month(year as int, 6) + month_len(year as int, 6) == year_len(year as int),
                forall|m: int| 1 <= m <= 13 ==> days_in_month@[m] == month_len(year as int, m),
                -2_000_000_000 < start + year_len(year as int) <= 2_000_000_002,
            decreases 13 - month_pos(month as int),
        {
            days = days + days_in_month[month] as i32;
            month = if month == 13 { 1 } else { month + 1 };
            assert(prev_month(month as int) == (if month == 1 { 13 } else { month - 1 }));
        }
        JDate { year, month: month as u8, day: (ed - days + 1) as u8 }
    }

    /// The Julian day number of this date.
    pub fn to_jd(self) -> (r: i32)
        ensures
            r == julian_day_of(self@.0, self@.1, self@.2),
    {
        proof {
            use_type_invariant(&self);
            lemma_months_fill_year(self.year as int);
            lemma_start_bounds(self.year as int);
        }
        let mut ed = year_start(self.year) - 1;
        let days_in_month = year_months(self.year);
        let mut month: u8 = 7;
        while month != self.month
            invariant
                1 <= month <= 13,
                1 <= self.month <= 13,
                month_pos(month as int) <= month_pos(self.month as int),
                ed == start_of_year(self.year as int) - 1 + days_before_month(self.year as int, month as int),
                days_before_month(self.year as int, 6) + month_len(self.year as int, 6) == year_len(self.year as int),
                forall|m: int| 1 <= m <= 13 ==> days_in_month@[m] == month_len(self.year as int, m),
                -2_000_000_000 < start_of_year(self.year as int) + year_len(self.year as int) <= 2_000_000_002,
                -2_000_000_000 < start_of_year(self.year as int),
            decreases 13 - month_pos(month as int),
        {
            proof {
                lemma_month_in_year(self.year as int, month as int);
            }
            ed = ed + days_in_month[month as usize] as i32;
            month = if month == 13 { 1 } else { month + 1 };
            assert(prev_month(month as int) == (if month == 1 { 13 } else { month - 1 }));
        }
        proof {
            lemma_month_in_year(self.year as int, self.month as int);
        }
        ed + self.day as i32 + JD_EPOCH
    }

    pub fn year(self) -> (r: i32)
        ensures
            r == self@.0,
    {
        self.year
    }

    pub fn month(self) -> (r: u8)
        ensures
            r == self@.1,
    {
        self.month
    }

    pub fn day(self) -> (r: u8)
        ensures
            r == self@.2,
    {
        self.day
    }

    /// The month's English name: Nisan, Iyar, ..., Adar (Adar1 in a leap
    /// year), Adar2.
    pub fn month_name(self) -> (r: &'static str)
        ensures
            r@ == month_name_of(is_leap(self@.0), self@.1),
    {
        proof {
            use_type_invariant(&self);
        }
        if self.month == 12 && is_leap_year(self.year) {
            return "Adar1";
        }
        match self.month {
            1 => "Nisan",
            2 => "Iyar",
            3 => "Sivan",
            4 => "Tamuz",
            5 => "Av",
            6 => "Elul",
            7 => "Tishrei",
            8 => "Cheshvan",
            9 => "Kislev",
            10 => "Tevet",
            11 => "Shvat",
            12 => "Adar",
            _ => "Adar2",
        }
    }
}

} // verus!
