use jdate::{
    date_is_valid, gdate, is_leap_year, molad, molad_components, year_length, year_months,
    year_start, GDate, JDate, GREG_JD_MAX, GREG_JD_MIN,
};

fn hebrew_of(y: i32, m: u8, d: u8) -> JDate {
    JDate::from_gregorian(gdate(y, m, d).unwrap())
}

fn gregorian_of(d: JDate) -> GDate {
    GDate::from_jdate(d)
}

#[test]
fn test_molad_year() {
    assert_eq!(molad_components(1), (1, 5, 204));
    assert_eq!(molad_components(5785), (2112590, 9, 391));
}

#[test]
fn test_leap_year() {
    assert!(is_leap_year(5700));
    assert!(!is_leap_year(5701));
    assert!(!is_leap_year(5702));
    assert!(is_leap_year(5703));
    assert!(is_leap_year(5782));
    assert!(!is_leap_year(5783));
    assert!(is_leap_year(5784));
    assert!(!is_leap_year(5785));
    assert!(!is_leap_year(5786));
    assert!(is_leap_year(5787));
}

#[test]
fn test_from_greg() {
    assert_eq!(
        JDate::from(gdate(1, 1, 1).unwrap()),
        JDate::new(3761, 10, 18).unwrap()
    );
    assert_eq!(
        JDate::from(gdate(-3760, 9, 7).unwrap()),
        JDate::new(1, 7, 1).unwrap()
    );
    assert_eq!(
        JDate::from(gdate(2024, 12, 31).unwrap()),
        JDate::new(5785, 9, 30).unwrap()
    );
    assert_eq!(
        JDate::from(gdate(2025, 1, 1).unwrap()),
        JDate::new(5785, 10, 1).unwrap()
    );
    assert_eq!(
        JDate::from(gdate(2025, 2, 1).unwrap()),
        JDate::new(5785, 11, 3).unwrap()
    );
    assert_eq!(
        JDate::from(gdate(2025, 3, 1).unwrap()),
        JDate::new(5785, 12, 1).unwrap()
    );
    assert_eq!(
        JDate::from(gdate(2024, 2, 10).unwrap()),
        JDate::new(5784, 12, 1).unwrap()
    );
    assert_eq!(
        JDate::from(gdate(2024, 3, 11).unwrap()),
        JDate::new(5784, 13, 1).unwrap()
    );
    assert_eq!(
        JDate::from(gdate(2024, 4, 9).unwrap()),
        JDate::new(5784, 1, 1).unwrap()
    );
    assert_eq!(
        JDate::from(gdate(2024, 10, 2).unwrap()),
        JDate::new(5784, 6, 29).unwrap()
    );
    assert_eq!(
        JDate::from(gdate(2024, 10, 3).unwrap()),
        JDate::new(5785, 7, 1).unwrap()
    );
}

#[test]
fn test_from_jdate() {
    assert_eq!(gregorian_of(JDate::new(3761, 10, 18).unwrap()), gdate(1, 1, 1).unwrap());
    assert_eq!(gregorian_of(JDate::new(1, 7, 1).unwrap()), gdate(-3760, 9, 7).unwrap());
    assert_eq!(gregorian_of(JDate::new(5785, 9, 30).unwrap()), gdate(2024, 12, 31).unwrap());
    assert_eq!(gregorian_of(JDate::new(5785, 10, 1).unwrap()), gdate(2025, 1, 1).unwrap());
    assert_eq!(gregorian_of(JDate::new(5785, 11, 3).unwrap()), gdate(2025, 2, 1).unwrap());
    assert_eq!(gregorian_of(JDate::new(5785, 12, 1).unwrap()), gdate(2025, 3, 1).unwrap());
    assert_eq!(gregorian_of(JDate::new(5784, 12, 1).unwrap()), gdate(2024, 2, 10).unwrap());
    assert_eq!(gregorian_of(JDate::new(5784, 13, 1).unwrap()), gdate(2024, 3, 11).unwrap());
    assert_eq!(gregorian_of(JDate::new(5784, 1, 1).unwrap()), gdate(2024, 4, 9).unwrap());
    assert_eq!(gregorian_of(JDate::new(5784, 6, 29).unwrap()), gdate(2024, 10, 2).unwrap());
    assert_eq!(gregorian_of(JDate::new(5785, 7, 1).unwrap()), gdate(2024, 10, 3).unwrap());
}

#[test]
fn molad_exact_values() {
    assert_eq!(molad(1), 29 * 1080 + 204);
    assert_eq!(molad(2), 29 * 1080 + 204 + 12 * 765433);
    assert_eq!(molad(20), 29 * 1080 + 204 + 235 * 765433);
    assert_eq!(molad(0), 29 * 1080 + 204 - 13 * 765433);
}

#[test]
fn epoch_year_starts_on_day_one() {
    assert_eq!(year_start(1), 1);
    assert_eq!(JDate::new(1, 7, 1).unwrap().to_jd(), 347998);
}

#[test]
fn seven_leap_years_in_any_nineteen() {
    for start in -40..40 {
        let n = (start..start + 19).filter(|&y| is_leap_year(y)).count();
        assert_eq!(n, 7);
    }
    assert!(is_leap_year(0));
    assert!(is_leap_year(-2));
    assert!(!is_leap_year(-1));
}

#[test]
fn year_lengths_are_the_six_lengths() {
    for y in -500..6500 {
        let len = year_length(y);
        assert!([353, 354, 355, 383, 384, 385].contains(&len));
        assert_eq!(len >= 383, is_leap_year(y));
    }
    assert_eq!(year_length(5784), 383);
    assert_eq!(year_length(5785), 355);
}

#[test]
fn year_starts_increase() {
    for y in -500..6500 {
        assert!(year_start(y) < year_start(y + 1));
    }
}

#[test]
fn month_table_of_years() {
    // 5785 is a complete common year, 5784 a deficient leap year
    assert_eq!(year_months(5785), [0, 30, 29, 30, 29, 30, 29, 30, 30, 30, 29, 30, 29, 0]);
    assert_eq!(year_months(5784), [0, 30, 29, 30, 29, 30, 29, 30, 29, 29, 29, 30, 30, 29]);
    // 5781 is a deficient common year, 5782 a regular leap year
    assert_eq!(year_length(5781), 353);
    assert_eq!(year_months(5781), [0, 30, 29, 30, 29, 30, 29, 30, 29, 29, 29, 30, 29, 0]);
    assert_eq!(year_length(5782), 384);
    assert_eq!(year_months(5782), [0, 30, 29, 30, 29, 30, 29, 30, 29, 30, 29, 30, 30, 29]);
}

#[test]
fn date_validity() {
    assert!(date_is_valid(5785, 8, 30));
    assert!(!date_is_valid(5784, 8, 30));
    assert!(!date_is_valid(5782, 8, 30));
    assert!(date_is_valid(5782, 9, 30));
    assert!(date_is_valid(5783, 9, 30));
    assert!(!date_is_valid(5784, 9, 30));
    assert!(date_is_valid(5784, 13, 29));
    assert!(!date_is_valid(5785, 13, 1));
    assert!(date_is_valid(5784, 12, 30));
    assert!(!date_is_valid(5785, 12, 30));
    assert!(!date_is_valid(5785, 2, 30));
    assert!(!date_is_valid(5785, 0, 1));
    assert!(!date_is_valid(5785, 14, 1));
    assert!(!date_is_valid(5785, 1, 0));
    assert!(!date_is_valid(5785, 1, 31));
}

#[test]
fn new_rejects_invalid_dates() {
    assert!(JDate::new(5785, 13, 1).is_none());
    assert!(JDate::new(5785, 2, 30).is_none());
    assert!(JDate::new(5785, 1, 0).is_none());
    let d = JDate::new(5784, 13, 29).unwrap();
    assert_eq!((d.year(), d.month(), d.day()), (5784, 13, 29));
}

#[test]
fn month_names() {
    assert_eq!(JDate::new(5785, 7, 18).unwrap().month_name(), "Tishrei");
    assert_eq!(JDate::new(5785, 8, 30).unwrap().month_name(), "Cheshvan");
    assert_eq!(JDate::new(5785, 10, 1).unwrap().month_name(), "Tevet");
    assert_eq!(JDate::new(5785, 12, 1).unwrap().month_name(), "Adar");
    assert_eq!(JDate::new(5784, 12, 1).unwrap().month_name(), "Adar1");
    assert_eq!(JDate::new(5784, 13, 1).unwrap().month_name(), "Adar2");
    assert_eq!(JDate::new(5784, 6, 29).unwrap().month_name(), "Elul");
    assert_eq!(JDate::new(5784, 1, 1).unwrap().month_name(), "Nisan");
}

#[test]
fn gregorian_dates() {
    assert!(gdate(2023, 2, 29).is_none());
    assert!(gdate(2024, 2, 29).is_some());
    assert!(gdate(1900, 2, 29).is_none());
    assert!(gdate(2000, 2, 29).is_some());
    assert!(gdate(2024, 13, 1).is_none());
    assert!(gdate(2024, 0, 1).is_none());
    assert!(gdate(2024, 4, 31).is_none());
    assert!(gdate(10000, 1, 1).is_none());
    assert_eq!(gdate(2000, 1, 1).unwrap().to_jd(), 2451545);
    let d = GDate::from_jd(2458849);
    assert_eq!((d.year(), d.month(), d.day()), (2019, 12, 31));
}

#[test]
fn hebrew_day_round_trip() {
    let mut jd = 347998 - 4000;
    while jd < 347998 + 2_200_000 {
        let h = JDate::from_jd(jd);
        assert_eq!(h.to_jd(), jd);
        assert!(date_is_valid(h.year(), h.month(), h.day()));
        jd += 37;
    }
}

#[test]
fn gregorian_day_round_trip() {
    let mut jd = GREG_JD_MIN;
    while jd <= GREG_JD_MAX {
        assert_eq!(GDate::from_jd(jd).to_jd(), jd);
        jd += 997;
    }
    assert_eq!(GDate::from_jd(GREG_JD_MAX).to_jd(), GREG_JD_MAX);
}

#[test]
fn cross_calendar_round_trip() {
    for y in [-3760, -1, 0, 1, 1582, 1900, 2000, 2024, 2025, 9999] {
        for m in 1..=12u8 {
            for d in [1u8, 15, 28, 29, 30, 31] {
                if let Some(g) = gdate(y, m, d) {
                    let h = JDate::from_gregorian(g);
                    assert_eq!(GDate::from_jdate(h), g);
                }
            }
        }
    }
}

#[test]
fn gregorian_to_hebrew_scenarios() {
    let h = hebrew_of(1, 1, 1);
    assert_eq!((h.year(), h.month_name(), h.day()), (3761, "Tevet", 18));
    let h = hebrew_of(-3760, 9, 7);
    assert_eq!((h.year(), h.month_name(), h.day()), (1, "Tishrei", 1));
    let h = hebrew_of(2024, 12, 31);
    assert_eq!((h.year(), h.month_name(), h.day()), (5785, "Kislev", 30));
    let h = hebrew_of(2025, 1, 1);
    assert_eq!((h.year(), h.month(), h.day()), (5785, 10, 1));
    let h = hebrew_of(2024, 2, 10);
    assert_eq!((h.year(), h.month_name(), h.day()), (5784, "Adar1", 1));
    let h = hebrew_of(2024, 3, 11);
    assert_eq!((h.year(), h.month_name(), h.day()), (5784, "Adar2", 1));
    let h = hebrew_of(2024, 10, 2);
    assert_eq!((h.year(), h.month_name(), h.day()), (5784, "Elul", 29));
    let h = hebrew_of(2024, 10, 3);
    assert_eq!((h.year(), h.month_name(), h.day()), (5785, "Tishrei", 1));
}
