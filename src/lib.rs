//! Hebrew calendar arithmetic: the molad, the postponement rules, year and
//! month lengths, and conversion between Hebrew dates, Julian day numbers and
//! proleptic Gregorian dates.

pub mod molad;
pub mod laws;
pub mod year;
pub mod jdate;
pub mod gregorian;

pub use molad::{is_leap_year, molad, molad_components, year_start, YEAR_MIN, YEAR_MAX};
pub use year::{date_is_valid, year_length, year_months};
pub use jdate::{JDate, JD_EPOCH};
pub use gregorian::{gdate, GDate, GREG_JD_MIN, GREG_JD_MAX};
