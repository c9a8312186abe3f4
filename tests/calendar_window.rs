use cost_exporter::calendar::Date;
use cost_exporter::clock::{
    reporting_window, reporting_window_at, start_of_month, start_of_month_at, tomorrow,
    tomorrow_at, LocalDateTime,
};

fn at(year: i32, month: u32, day: u32, hour: u32, minute: u32, second: u32) -> LocalDateTime {
    LocalDateTime { date: Date { year, month, day }, hour, minute, second }
}

#[test]
fn start_of_month_is_the_same_for_every_day_and_time() {
    for day in 1..=31 {
        for (h, m, s) in [(0, 0, 0), (12, 30, 15), (23, 59, 59)] {
            assert_eq!(start_of_month_at(&at(2024, 1, day, h, m, s)), "2024-01-01");
        }
    }
    for day in 1..=29 {
        assert_eq!(start_of_month_at(&at(2024, 2, day, 8, 0, 0)), "2024-02-01");
    }
}

#[test]
fn tomorrow_within_a_month() {
    assert_eq!(tomorrow_at(&at(2024, 6, 3, 10, 0, 0)).unwrap(), "2024-06-04");
}

#[test]
fn tomorrow_rolls_over_month_end() {
    assert_eq!(tomorrow_at(&at(2023, 1, 31, 23, 59, 59)).unwrap(), "2023-02-01");
    assert_eq!(tomorrow_at(&at(2023, 4, 30, 0, 0, 0)).unwrap(), "2023-05-01");
}

#[test]
fn tomorrow_rolls_over_year_end() {
    assert_eq!(tomorrow_at(&at(2023, 12, 31, 12, 0, 0)).unwrap(), "2024-01-01");
}

#[test]
fn tomorrow_in_february_follows_leap_years() {
    assert_eq!(tomorrow_at(&at(2024, 2, 28, 0, 0, 0)).unwrap(), "2024-02-29");
    assert_eq!(tomorrow_at(&at(2024, 2, 29, 0, 0, 0)).unwrap(), "2024-03-01");
    assert_eq!(tomorrow_at(&at(2023, 2, 28, 0, 0, 0)).unwrap(), "2023-03-01");
    assert_eq!(tomorrow_at(&at(1900, 2, 28, 0, 0, 0)).unwrap(), "1900-03-01");
    assert_eq!(tomorrow_at(&at(2000, 2, 28, 0, 0, 0)).unwrap(), "2000-02-29");
}

#[test]
fn tomorrow_is_absent_after_the_last_date() {
    assert!(tomorrow_at(&at(262142, 12, 31, 0, 0, 0)).is_none());
    assert!(reporting_window_at(&at(262142, 12, 31, 0, 0, 0)).is_none());
}

#[test]
fn small_years_are_zero_padded() {
    assert_eq!(start_of_month_at(&at(987, 3, 9, 0, 0, 0)), "0987-03-01");
    assert_eq!(tomorrow_at(&at(5, 3, 9, 0, 0, 0)).unwrap(), "0005-03-10");
}

#[test]
fn window_spans_month_start_to_tomorrow() {
    let w = reporting_window_at(&at(2024, 3, 15, 9, 41, 0)).unwrap();
    assert_eq!(w.start, "2024-03-01");
    assert_eq!(w.end, "2024-03-16");
    let w = reporting_window_at(&at(2024, 3, 31, 9, 41, 0)).unwrap();
    assert_eq!(w.start, "2024-03-01");
    assert_eq!(w.end, "2024-04-01");
}

fn is_ymd(s: &str) -> bool {
    let b = s.as_bytes();
    b.len() == 10
        && b[4] == b'-'
        && b[7] == b'-'
        && b.iter().enumerate().all(|(i, c)| i == 4 || i == 7 || c.is_ascii_digit())
}

#[test]
fn current_window_is_well_formed() {
    let start = start_of_month().unwrap();
    assert!(is_ymd(&start));
    assert!(start.ends_with("-01"));
    let end = tomorrow().unwrap();
    assert!(is_ymd(&end));
    assert!(end > start);
    let w = reporting_window().unwrap();
    assert!(w.start.ends_with("-01"));
    assert!(w.end > w.start);
}

#[test]
fn years_past_four_digits_carry_a_sign() {
    assert_eq!(start_of_month_at(&at(10000, 5, 20, 0, 0, 0)), "+10000-05-01");
    assert_eq!(tomorrow_at(&at(262142, 12, 30, 0, 0, 0)).unwrap(), "+262142-12-31");
    assert_eq!(start_of_month_at(&at(-5, 2, 14, 0, 0, 0)), "-0005-02-01");
    assert_eq!(tomorrow_at(&at(-1, 12, 31, 0, 0, 0)).unwrap(), "0000-01-01");
    assert_eq!(start_of_month_at(&at(-262143, 1, 9, 0, 0, 0)), "-262143-01-01");
}

#[test]
fn start_of_month_agrees_across_a_month_of_a_large_year() {
    assert_eq!(
        start_of_month_at(&at(12345, 7, 1, 0, 0, 0)),
        start_of_month_at(&at(12345, 7, 31, 23, 59, 59))
    );
}
