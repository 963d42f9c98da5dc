//! Proleptic Gregorian dates, read and written through the `time` crate, and
//! their meeting with Hebrew dates on the Julian day axis.
use vstd::prelude::*;
use vstd::arithmetic::div_mod::lemma_fundamental_div_mod_converse;
use crate::molad::{start_of_year, YEAR_MIN, YEAR_MAX, lemma_start_near_molad,
    cycle_months, months_before, molad_of};
use crate::jdate::{JDate, JD_EPOCH, julian_day_of};
use crate::year::hebrew_date_valid;
use crate::jdate::lemma_julian_day_round_trip;

verus! {

/// Earliest Gregorian year that `time::Date` represents.
pub const GREG_YEAR_MIN: i32 = -9999;

/// Latest Gregorian year that `time::Date` represents.
pub const GREG_YEAR_MAX: i32 = 9999;

/// Julian day number of -9999-01-01.
pub const GREG_JD_MIN: i32 = -1930999;

/// Julian day number of 9999-12-31.
pub const GREG_JD_MAX: i32 = 5373484;

pub open spec fn greg_leap(y: int) -> bool {
    y % 4 == 0 && (y % 100 != 0 || y % 400 == 0)
}

pub open spec fn greg_month_len(y: int, m: int) -> int {
    if m == 2 {
        if greg_leap(y) { 29 } else { 28 }
    } else if m == 4 || m == 6 || m == 9 || m == 11 {
        30
    } else {
        31
    }
}

/// A date of the proleptic Gregorian calendar.
pub open spec fn greg_date_valid(y: int, m: int, d: int) -> bool {
    1 <= m <= 12 && 1 <= d <= greg_month_len(y, m)
}

/// A Gregorian date that `time::Date` can hold.
pub open spec fn greg_date_in_range(y: int, m: int, d: int) -> bool {
    GREG_YEAR_MIN <= y <= GREG_YEAR_MAX && greg_date_valid(y, m, d)
}

/// Days from 1 January to the first of month `m` of year `y`.
pub open spec fn greg_days_before_month(y: int, m: int) -> int {
    let common: int = if m == 1 { 0 }
        else if m == 2 { 31 }
        else if m == 3 { 59 }
        else if m == 4 { 90 }
        else if m == 5 { 120 }
        else if m == 6 { 151 }
        else if m == 7 { 181 }
        else if m == 8 { 212 }
        else if m == 9 { 243 }
        else if m == 10 { 273 }
        else if m == 11 { 304 }
        else { 334 };
    if m > 2 && greg_leap(y) { common + 1 } else { common }
}

/// The Julian day number of a Gregorian date: the days of the years before
/// it, with a leap day in every fourth year but the centuries not divisible
/// by 400, counted from 2000-01-01 being day 2451545.
pub open spec fn greg_julian_day(y: int, m: int, d: int) -> int {
    greg_year_start(y) + greg_days_before_month(y, m) + d - 1
}

/// The Julian day number of 1 January of year `y`.
pub open spec fn greg_year_start(y: int) -> int {
    let p = y - 1;
    1721426 + 365 * p + p / 4 - p / 100 + p / 400
}

/// Relies on `time::Date::from_calendar_date`: it accepts a day exactly when
/// the year is in -9999..=9999 and the day exists in that month of that year.
#[verifier::external_body]
fn calendar_date_exists(year: i32, month: u8, day: u8) -> (r: bool)
    ensures
        r == greg_date_in_range(year as int, month as int, day as int),
{
    match time::Month::try_from(month) {
        Ok(m) => time::Date::from_calendar_date(year, m, day).is_ok(),
        Err(_) => false,
    }
}

/// Relies on `time::Date::to_julian_day`: the Julian day number of the date.
#[verifier::external_body]
fn julian_day_of_calendar(year: i32, month: u8, day: u8) -> (r: i32)
    requires
        greg_date_in_range(year as int, month as int, day as int),
    ensures
        r == greg_julian_day(year as int, month as int, day as int),
{
    let m = time::Month::try_from(month).unwrap();
    time::Date::from_calendar_date(year, m, day).unwrap().to_julian_day()
}

/// Relies on `time::Date::from_julian_day`: in its range, the date whose
/// Julian day number is `jd`.
#[verifier::external_body]
fn calendar_of_julian_day(jd: i32) -> (r: (i32, u8, u8))
    requires
        GREG_JD_MIN <= jd <= GREG_JD_MAX,
    ensures
        greg_date_in_range(r.0 as int, r.1 as int, r.2 as int),
        greg_julian_day(r.0 as int, r.1 as int, r.2 as int) == jd,
{
    let d = time::Date::from_julian_day(jd).unwrap();
    (d.year(), d.month() as u8, d.day())
}

/// A date of the proleptic Gregorian calendar, in years -9999 to 9999.
#[derive(Debug, Clone, Copy, PartialEq, Eq, Structural)]
pub struct GDate {
    year: i32,
    month: u8,
    day: u8,
}

impl View for GDate {
    type V = (int, int, int);

    closed spec fn view(&self) -> (int, int, int) {
        (self.year as int, self.month as int, self.day as int)
    }
}

/// The Gregorian date (`year`, `month`, `day`), if it exists and is in range.
pub fn gdate(year: i32, month: u8, day: u8) -> (r: Option<GDate>)
    ensures
        r.is_some() == greg_date_in_range(year as int, month as int, day as int),
        r.is_some() ==> r.unwrap()@ == (year as int, month as int, day as int),
{
    if calendar_date_exists(year, month, day) {
        Some(GDate { year, month, day })
    } else {
        None
    }
}

impl GDate {
    #[verifier::type_invariant]
    spec fn inv(self) -> bool {
        greg_date_in_range(self.year as int, self.month as int, self.day as int)
    }

    pub fn year(self) -> (r: i32)
        ensures
            r == self@.0,
    {
        self.year
    }

    pub fn month(self) -> (r: u8)
        ensures
            r == self@.1,
    {
        self.month
    }

    pub fn day(self) -> (r: u8)
        ensures
            r == self@.2,
    {
        self.day
    }

    /// The Julian day number of this date.
    pub fn to_jd(self) -> (r: i32)
        ensures
            r == greg_julian_day(self@.0, self@.1, self@.2),
            greg_date_in_range(self@.0, self@.1, self@.2),
    {
        proof {
            use_type_invariant(&self);
        }
        julian_day_of_calendar(self.year, self.month, self.day)
    }

    /// The Gregorian date of Julian day `jd`.
    pub fn from_jd(jd: i32) -> (r: GDate)
        requires
            GREG_JD_MIN <= jd <= GREG_JD_MAX,
        ensures
            greg_date_in_range(r@.0, r@.1, r@.2),
            greg_julian_day(r@.0, r@.1, r@.2) == jd,
    {
        let (year, month, day) = calendar_of_julian_day(jd);
        GDate { year, month, day }
    }
}

/// The Hebrew years of this library reach far beyond the Gregorian range.
proof fn lemma_hebrew_range_covers_gregorian()
    ensures
        start_of_year(YEAR_MIN as int) < GREG_JD_MIN - JD_EPOCH,
        start_of_year(YEAR_MAX as int) > GREG_JD_MAX - JD_EPOCH,
{
    lemma_start_near_molad(YEAR_MIN as int);
    lemma_start_near_molad(YEAR_MAX as int);
    reveal_with_fuel(cycle_months, 19);
    assert((YEAR_MIN - 1) / 19 == -263158);
    assert((YEAR_MAX - 1) / 19 == 263157);
    assert(months_before(YEAR_MIN as int) < -60000000);
    assert(months_before(YEAR_MAX as int) > 60000000);
    assert(molad_of(YEAR_MIN as int) < -4000000 * 25920);
    assert(molad_of(YEAR_MAX as int) > 7000000 * 25920);
}

impl JDate {
    /// The Hebrew date of a Gregorian date.
    pub fn from_gregorian(d: GDate) -> (r: JDate)
        ensures
            hebrew_date_valid(r@.0, r@.1, r@.2),
            julian_day_of(r@.0, r@.1, r@.2) == greg_julian_day(d@.0, d@.1, d@.2),
    {
        let jd = d.to_jd();
        proof {
            lemma_greg_julian_day_range(d@.0, d@.1, d@.2);
            lemma_hebrew_range_covers_gregorian();
        }
        JDate::from_jd(jd)
    }
}

/// The Hebrew date on Julian day `jd`.
pub open spec fn hebrew_date_on(jd: int) -> JDate {
    choose|h: JDate| hebrew_date_valid(h@.0, h@.1, h@.2) && julian_day_of(h@.0, h@.1, h@.2) == jd
}

impl From<GDate> for JDate {
    /// The Hebrew date of a Gregorian date.
    fn from(d: GDate) -> (r: JDate) {
        let r = JDate::from_gregorian(d);
        proof {
            let h = hebrew_date_on(greg_julian_day(d@.0, d@.1, d@.2));
            assert(hebrew_date_valid(h@.0, h@.1, h@.2) && julian_day_of(h@.0, h@.1, h@.2)
                == greg_julian_day(d@.0, d@.1, d@.2));
            lemma_julian_day_round_trip(r@, h@);
            JDate::lemma_view_determines(r, h);
        }
        r
    }
}

impl vstd::std_specs::convert::FromSpecImpl<GDate> for JDate {
    open spec fn obeys_from_spec() -> bool {
        true
    }

    open spec fn from_spec(d: GDate) -> JDate {
        hebrew_date_on(greg_julian_day(d@.0, d@.1, d@.2))
    }
}

impl GDate {
    /// The Gregorian date of a Hebrew date whose day the Gregorian range holds.
    pub fn from_jdate(d: JDate) -> (r: GDate)
        requires
            GREG_JD_MIN <= julian_day_of(d@.0, d@.1, d@.2) <= GREG_JD_MAX,
        ensures
            greg_julian_day(r@.0, r@.1, r@.2) == julian_day_of(d@.0, d@.1, d@.2),
            greg_date_in_range(r@.0, r@.1, r@.2),
    {
        GDate::from_jd(d.to_jd())
    }
}

/// The Julian day number of every Gregorian date in range is in range.
pub proof fn lemma_greg_julian_day_range(y: int, m: int, d: int)
    requires
        greg_date_in_range(y, m, d),
    ensures
        GREG_JD_MIN <= greg_julian_day(y, m, d) <= GREG_JD_MAX,
{
    let p = y - 1;
    assert(-10000 <= p <= 9998);
    assert(-2500 <= p / 4 <= 2499);
    assert(-100 <= p / 100 <= 99);
    assert(-25 <= p / 400 <= 24);
}

proof fn lemma_div_step(y: int, n: int)
    requires
        n == 4 || n == 100 || n == 400,
    ensures
        y / n - (y - 1) / n == if y % n == 0 { 1int } else { 0 },
{
    if n == 4 {
        if y % 4 == 0 {
            lemma_fundamental_div_mod_converse(y - 1, 4, y / 4 - 1, 3);
        } else {
            lemma_fundamental_div_mod_converse(y - 1, 4, y / 4, y % 4 - 1);
        }
    } else if n == 100 {
        if y % 100 == 0 {
            lemma_fundamental_div_mod_converse(y - 1, 100, y / 100 - 1, 99);
        } else {
            lemma_fundamental_div_mod_converse(y - 1, 100, y / 100, y % 100 - 1);
        }
    } else {
        if y % 400 == 0 {
            lemma_fundamental_div_mod_converse(y - 1, 400, y / 400 - 1, 399);
        } else {
            lemma_fundamental_div_mod_converse(y - 1, 400, y / 400, y % 400 - 1);
        }
    }
}

/// A Gregorian year has 366 days when it is a leap year, else 365.
proof fn lemma_greg_year_step(y: int)
    ensures
        greg_year_start(y + 1) - greg_year_start(y) == if greg_leap(y) { 366int } else { 365 },
{
    lemma_div_step(y, 4);
    lemma_div_step(y, 100);
    lemma_div_step(y, 400);
}

proof fn lemma_greg_years_increasing(a: int, b: int)
    requires
        a < b,
    ensures
        greg_year_start(a + 1) <= greg_year_start(b),
    decreases b - a,
{
    if a + 1 < b {
        lemma_greg_years_increasing(a, b - 1);
        lemma_greg_year_step(b - 1);
    }
}

proof fn lemma_greg_date_in_its_year(y: int, m: int, d: int)
    requires
        greg_date_valid(y, m, d),
    ensures
        greg_year_start(y) <= greg_julian_day(y, m, d) < greg_year_start(y + 1),
{
    lemma_greg_year_step(y);
}

/// Two Gregorian dates with one Julian day number are one date.
pub proof fn lemma_greg_julian_day_injective(y1: int, m1: int, d1: int, y2: int, m2: int, d2: int)
    requires
        greg_date_valid(y1, m1, d1),
        greg_date_valid(y2, m2, d2),
        greg_julian_day(y1, m1, d1) == greg_julian_day(y2, m2, d2),
    ensures
        y1 == y2 && m1 == m2 && d1 == d2,
{
    lemma_greg_date_in_its_year(y1, m1, d1);
    lemma_greg_date_in_its_year(y2, m2, d2);
    if y1 < y2 {
        lemma_greg_years_increasing(y1, y2);
    } else if y2 < y1 {
        lemma_greg_years_increasing(y2, y1);
    }
    assert(y1 == y2);
}

/// A Gregorian date taken to the Hebrew calendar and back is the same date:
/// for every date `g` in range, every Hebrew date `h` on the same Julian day,
/// and every Gregorian date `g2` on the Julian day of `h`, `g2` is `g`.
pub proof fn lemma_gregorian_round_trip(g: (int, int, int), h: (int, int, int), g2: (int, int, int))
    requires
        greg_date_in_range(g.0, g.1, g.2),
        julian_day_of(h.0, h.1, h.2) == greg_julian_day(g.0, g.1, g.2),
        greg_date_in_range(g2.0, g2.1, g2.2),
        greg_julian_day(g2.0, g2.1, g2.2) == julian_day_of(h.0, h.1, h.2),
    ensures
        g2 == g,
{
    lemma_greg_julian_day_injective(g.0, g.1, g.2, g2.0, g2.1, g2.2);
}

} // verus!
