use llm_journal::cycle_date::CycleDate;
use llm_journal::real_date::{cycle_start, RealDate};

#[test]
fn cycle_starts_on_the_first_sunday_of_2024() {
    let start = RealDate::from_days_from_ce(cycle_start()).unwrap();
    assert_eq!(start.ymd(), (2024, 1, 7));
    assert_eq!(start.weekday_from_sunday(), 0);
    assert_eq!(cycle_start(), 738_892);
}

#[test]
fn from_ymd_rejects_days_that_do_not_exist() {
    assert!(RealDate::from_ymd(2023, 2, 29).is_none());
    assert!(RealDate::from_ymd(2023, 13, 1).is_none());
    assert!(RealDate::from_ymd(2023, 0, 1).is_none());
    assert!(RealDate::from_ymd(400_000, 1, 1).is_none());
    assert_eq!(RealDate::from_ymd(1970, 1, 1).unwrap().days_from_ce(), 719_163);
    assert_eq!(RealDate::from_ymd(2024, 2, 29).unwrap().ymd(), (2024, 2, 29));
}

#[test]
fn from_days_rejects_numbers_outside_the_calendar() {
    assert!(RealDate::from_days_from_ce(100_000_000).is_none());
    assert!(RealDate::from_days_from_ce(i64::MAX).is_none());
    assert!(RealDate::from_days_from_ce(i64::MIN).is_none());
    assert_eq!(RealDate::from_days_from_ce(1).unwrap().ymd(), (1, 1, 1));
}

#[test]
fn from_real_date_splits_the_days_since_the_start() {
    let start = RealDate::from_ymd(2024, 1, 7).unwrap();
    assert_eq!(CycleDate::from_real_date(start), CycleDate { year_cycle: 0, month: 0, week: 0, day: 0 });
    let later = RealDate::from_ymd(2024, 2, 14).unwrap();
    assert_eq!(CycleDate::from_real_date(later), CycleDate { year_cycle: 0, month: 1, week: 1, day: 3 });
    let next_year = RealDate::from_ymd(2025, 1, 5).unwrap();
    assert_eq!(CycleDate::from_real_date(next_year), CycleDate { year_cycle: 1, month: 0, week: 0, day: 0 });
}

#[test]
fn from_real_date_clamps_days_before_the_start() {
    let before = RealDate::from_ymd(2024, 1, 6).unwrap();
    assert_eq!(CycleDate::from_real_date(before), CycleDate { year_cycle: 0, month: 0, week: 0, day: 0 });
    let long_before = RealDate::from_ymd(1999, 12, 31).unwrap();
    assert_eq!(CycleDate::from_real_date(long_before), CycleDate { year_cycle: 0, month: 0, week: 0, day: 0 });
}

#[test]
fn from_real_date_wraps_the_year_after_a_hundred_cycle_years() {
    let start = RealDate::from_ymd(2024, 1, 7).unwrap();
    let wrapped = RealDate::from_days_from_ce(start.days_from_ce() as i64 + 36_400 + 8).unwrap();
    assert_eq!(CycleDate::from_real_date(wrapped), CycleDate { year_cycle: 0, month: 0, week: 1, day: 1 });
}

#[test]
fn to_real_date_inverts_from_real_date_within_the_cycle() {
    let start = cycle_start();
    for offset in [0i64, 1, 6, 7, 27, 28, 363, 364, 365, 20_000, 36_399] {
        let real = RealDate::from_days_from_ce(start + offset).unwrap();
        let cycle = CycleDate::from_real_date(real);
        assert_eq!(cycle.to_real_date(), Some(real));
    }
}

#[test]
fn to_real_date_of_a_known_date() {
    let date = CycleDate::new(0, 1, 1, 3).unwrap();
    assert_eq!(date.to_real_date().unwrap().ymd(), (2024, 2, 14));
    let real = date.to_real_date().unwrap();
    assert_eq!(CycleDate::from_real_date(real), date);
}

#[test]
fn long_text_names_weekday_and_month() {
    let date = RealDate::from_ymd(2024, 1, 7).unwrap();
    assert_eq!(date.long_text(), "Sunday, January 07, 2024");
}

#[test]
fn parse_iso_reads_a_date_and_rejects_other_text() {
    assert_eq!(RealDate::parse_iso("2015-09-05").unwrap().ymd(), (2015, 9, 5));
    assert!(RealDate::parse_iso("2015-02-30").is_none());
    assert!(RealDate::parse_iso("tomorrow").is_none());
}

#[test]
fn days_since_counts_days_between_dates() {
    let a = RealDate::from_ymd(2024, 12, 25).unwrap();
    let b = RealDate::from_ymd(2024, 11, 25).unwrap();
    assert_eq!(a.days_since(&b), 30);
    assert_eq!(b.days_since(&a), -30);
}

#[test]
fn weekday_is_the_day_number_modulo_seven() {
    let mut days: i64 = -800_000;
    while days <= 4_000_000 {
        let date = RealDate::from_days_from_ce(days).unwrap();
        assert_eq!(i64::from(date.weekday_from_sunday()), days.rem_euclid(7), "day {}", days);
        days += 1;
    }
    assert_eq!(RealDate::from_ymd(1, 1, 1).unwrap().weekday_from_sunday(), 1);
    assert_eq!(RealDate::from_ymd(2024, 1, 1).unwrap().weekday_from_sunday(), 1);
    assert_eq!(RealDate::from_ymd(2024, 1, 7).unwrap().weekday_from_sunday(), 0);
}

#[test]
fn cycle_day_is_the_weekday_from_the_start_on() {
    let start = cycle_start();
    assert_eq!(start.rem_euclid(7), 0);
    let reference = i64::from(RealDate::from_ymd(2024, 1, 1).unwrap().days_from_ce());
    assert!(reference <= start && start <= reference + 6);
    for offset in 0..40_000i64 {
        let date = RealDate::from_days_from_ce(start + offset).unwrap();
        assert_eq!(u32::from(CycleDate::from_real_date(date).day), date.weekday_from_sunday());
    }
}
