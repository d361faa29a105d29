use toggl_cli::dates::{date_is_valid, days_earlier, is_leap_year, month_length, prev_date, Date};
use toggl_cli::render::{
    format_date, format_date_ymd, format_duration, format_time, format_total_header, pad2, u64_dec,
};

fn d(year: i32, month: u8, day: u8) -> Date {
    Date { year, month, day }
}

#[test]
fn leap_years_follow_the_gregorian_rule() {
    assert!(is_leap_year(2000));
    assert!(!is_leap_year(1900));
    assert!(is_leap_year(2024));
    assert!(!is_leap_year(2026));
}

#[test]
fn month_lengths() {
    assert_eq!(month_length(2026, 1), 31);
    assert_eq!(month_length(2026, 2), 28);
    assert_eq!(month_length(2024, 2), 29);
    assert_eq!(month_length(2026, 4), 30);
    assert_eq!(month_length(2026, 12), 31);
}

#[test]
fn date_validity() {
    assert!(date_is_valid(&d(2026, 2, 28)));
    assert!(!date_is_valid(&d(2026, 2, 29)));
    assert!(date_is_valid(&d(2024, 2, 29)));
    assert!(!date_is_valid(&d(2026, 13, 1)));
    assert!(!date_is_valid(&d(2026, 0, 1)));
    assert!(!date_is_valid(&d(2026, 6, 0)));
}

#[test]
fn previous_day_crosses_months_and_years() {
    assert_eq!(prev_date(&d(2026, 10, 12)), d(2026, 10, 11));
    assert_eq!(prev_date(&d(2026, 3, 1)), d(2026, 2, 28));
    assert_eq!(prev_date(&d(2024, 3, 1)), d(2024, 2, 29));
    assert_eq!(prev_date(&d(2026, 1, 1)), d(2025, 12, 31));
}

#[test]
fn days_earlier_steps_back() {
    assert_eq!(days_earlier(&d(2026, 10, 12), 0), d(2026, 10, 12));
    assert_eq!(days_earlier(&d(2026, 10, 12), 11), d(2026, 10, 1));
    assert_eq!(days_earlier(&d(2026, 10, 12), 12), d(2026, 9, 30));
    assert_eq!(days_earlier(&d(2026, 1, 1), 1), d(2025, 12, 31));
}

#[test]
fn decimal_rendering() {
    assert_eq!(u64_dec(0), "0");
    assert_eq!(u64_dec(7), "7");
    assert_eq!(u64_dec(10), "10");
    assert_eq!(u64_dec(18446744073709551615), "18446744073709551615");
    assert_eq!(pad2(0), "00");
    assert_eq!(pad2(5), "05");
    assert_eq!(pad2(59), "59");
}

#[test]
fn duration_formatting_has_unpadded_minutes_modulo_sixty() {
    assert_eq!(format_duration(3661), "1 h 1 min");
    assert_eq!(format_duration(59), "0 min");
    assert_eq!(format_duration(7200), "2 h 0 min");
    assert_eq!(format_duration(0), "0 min");
    assert_eq!(format_duration(3600), "1 h 0 min");
    assert_eq!(format_duration(86400 + 90), "24 h 1 min");
}

#[test]
fn clock_times_are_zero_padded() {
    assert_eq!(format_time(8, 5), "08:05");
    assert_eq!(format_time(23, 59), "23:59");
    assert_eq!(format_time(0, 0), "00:00");
}

#[test]
fn total_header_pads_minutes_unlike_durations() {
    assert_eq!(format_total_header(3600), "\u{231b}1 hours 00 minutes");
    assert_eq!(format_total_header(1500), "\u{231b}0 hours 25 minutes");
    assert_eq!(format_total_header(5400), "\u{231b}1 hours 30 minutes");
    assert_eq!(format_total_header(59), "\u{231b}0 hours 00 minutes");
}

#[test]
fn relative_day_is_a_three_way_calendar_tie_break() {
    let today = d(2026, 10, 12);
    assert_eq!(format_date(&d(2026, 10, 12), &today), None);
    assert_eq!(format_date(&d(2026, 10, 11), &today), Some("yesterday".to_string()));
    assert_eq!(format_date(&d(2026, 10, 1), &today), Some("01 Oct".to_string()));
    assert_eq!(format_date(&d(2025, 12, 31), &d(2026, 1, 1)), Some("yesterday".to_string()));
    assert_eq!(format_date(&d(2026, 3, 5), &today), Some("05 Mar".to_string()));
}

#[test]
fn full_dates_render_as_iso() {
    assert_eq!(format_date_ymd(&d(2026, 10, 5)), "2026-10-05");
    assert_eq!(format_date_ymd(&d(812, 1, 31)), "0812-01-31");
}
