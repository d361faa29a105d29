use toggl_cli::dates::Date;
use toggl_cli::report::{day_summary, recent_view};
use toggl_cli::time_entry::{LocalStamp, TimeEntry};

fn d(year: i32, month: u8, day: u8) -> Date {
    Date { year, month, day }
}

fn stamp(epoch: i64, date: Date, hour: u8, minute: u8) -> LocalStamp {
    LocalStamp { epoch, date, hour, minute }
}

fn stopped(
    date: Date,
    start_hm: (u8, u8),
    stop_hm: (u8, u8),
    duration: i64,
    description: Option<&str>,
    project: Option<&str>,
) -> TimeEntry {
    TimeEntry {
        id: 1,
        workspace_id: 1,
        description: description.map(|s| s.to_string()),
        project_id: None,
        project_name: project.map(|s| s.to_string()),
        start: stamp(0, date, start_hm.0, start_hm.1),
        stop: Some(stamp(0, date, stop_hm.0, stop_hm.1)),
        duration,
    }
}

fn running(date: Date, start_hm: (u8, u8), start_epoch: i64, description: Option<&str>) -> TimeEntry {
    TimeEntry {
        id: 2,
        workspace_id: 1,
        description: description.map(|s| s.to_string()),
        project_id: None,
        project_name: None,
        start: stamp(start_epoch, date, start_hm.0, start_hm.1),
        stop: None,
        duration: -1_700_000_000,
    }
}

#[test]
fn recent_view_splits_today_and_older() {
    let today = d(2026, 10, 12);
    let now: i64 = 1_000_000;
    let entries = vec![
        stopped(today, (8, 0), (8, 30), 1800, None, None),
        running(today, (9, 0), now - 3600, None),
        stopped(d(2026, 10, 11), (10, 0), (10, 15), 900, None, None),
        stopped(d(2026, 10, 1), (7, 5), (7, 20), 900, None, None),
    ];
    let lines = recent_view(&entries, &today, now);
    assert_eq!(lines.len(), 6);
    assert_eq!(lines[0], " -- Today -- \u{231b}1 hours 30 minutes");
    assert_eq!(lines[1], "08:00 - 08:30 (30 min)\tno description");
    assert_eq!(lines[2], "09:00 - in progress\tno description");
    assert_eq!(lines[3], " -- Older -- ");
    assert_eq!(lines[4], "10:00 - 10:15 yesterday (15 min)\tno description");
    assert_eq!(lines[5], "07:05 - 07:20 01 Oct (15 min)\tno description");
}

#[test]
fn recent_view_running_entry_never_shows_negative_duration() {
    // A running entry arrives with the service's negative encoding; the
    // total must use now - start instead, and the entry line carries no
    // duration suffix at all.
    let today = d(2026, 10, 12);
    let now: i64 = 1_700_000_000;
    let entries = vec![running(today, (9, 0), now - 60, None)];
    let lines = recent_view(&entries, &today, now);
    assert_eq!(lines.len(), 2);
    assert_eq!(lines[0], " -- Today -- \u{231b}0 hours 01 minutes");
    assert_eq!(lines[1], "09:00 - in progress\tno description");
}

#[test]
fn recent_view_caps_older_at_ten() {
    let today = d(2026, 10, 12);
    let old = d(2026, 9, 1);
    let mut entries = Vec::new();
    for _ in 0..12 {
        entries.push(stopped(old, (6, 0), (6, 10), 600, None, None));
    }
    let lines = recent_view(&entries, &today, 0);
    // no today bucket: only the older header and ten capped lines
    assert_eq!(lines.len(), 11);
    assert_eq!(lines[0], " -- Older -- ");
    for i in 1..11 {
        assert_eq!(lines[i], "06:00 - 06:10 01 Sep (10 min)\tno description");
    }
}

#[test]
fn recent_view_empty_batch_prints_nothing() {
    let lines = recent_view(&Vec::new(), &d(2026, 10, 12), 0);
    assert_eq!(lines.len(), 0);
}

#[test]
fn recent_view_today_order_is_preserved_and_projects_shown() {
    let today = d(2026, 10, 12);
    let entries = vec![
        stopped(today, (13, 0), (13, 45), 2700, Some("review"), Some("alpha")),
        stopped(today, (8, 15), (9, 0), 2700, Some(""), None),
    ];
    let lines = recent_view(&entries, &today, 0);
    assert_eq!(lines.len(), 3);
    assert_eq!(lines[0], " -- Today -- \u{231b}1 hours 30 minutes");
    assert_eq!(lines[1], "13:00 - 13:45 (45 min)\t[alpha]\treview");
    assert_eq!(lines[2], "08:15 - 09:00 (45 min)\tno description");
}

#[test]
fn day_summary_groups_by_description_and_sums() {
    let today = d(2026, 10, 12);
    let now: i64 = 500_000;
    let entries = vec![
        stopped(today, (8, 0), (8, 10), 600, Some("build"), Some("alpha")),
        stopped(today, (9, 0), (9, 15), 900, Some("build"), Some("beta")),
        running(today, (10, 0), now, Some("build")),
    ];
    let lines = day_summary(&entries, &today, None, now);
    assert_eq!(lines.len(), 2);
    // the running entry counts toward the header total (now - start = 0
    // here) but is excluded from the per-description sum
    assert_eq!(lines[0], " -- Today -- \u{231b}0 hours 25 minutes");
    assert_eq!(lines[1], "25 min\t[alpha]\tbuild");
}

#[test]
fn day_summary_separate_descriptions_stay_separate() {
    let today = d(2026, 10, 12);
    let entries = vec![
        stopped(today, (8, 0), (8, 10), 600, Some("build"), None),
        stopped(today, (9, 0), (9, 30), 1800, Some("review"), Some("alpha")),
        stopped(today, (11, 0), (11, 5), 300, Some("build"), None),
    ];
    let lines = day_summary(&entries, &today, None, 0);
    assert_eq!(lines.len(), 3);
    assert_eq!(lines[0], " -- Today -- \u{231b}0 hours 45 minutes");
    assert_eq!(lines[1], "15 min\t[]\tbuild");
    assert_eq!(lines[2], "30 min\t[alpha]\treview");
}

#[test]
fn day_summary_for_a_past_day_shows_the_literal_date() {
    let today = d(2026, 10, 12);
    let entries = vec![stopped(d(2026, 10, 1), (7, 0), (7, 1), 60, None, None)];
    let lines = day_summary(&entries, &today, Some(11), 0);
    assert_eq!(lines.len(), 2);
    assert_eq!(lines[0], " -- 2026-10-01 -- \u{231b}0 hours 01 minutes");
    assert_eq!(lines[1], "1 min\t[]\t");
}

#[test]
fn day_summary_empty_batch_prints_nothing() {
    let lines = day_summary(&Vec::new(), &d(2026, 10, 12), Some(3), 0);
    assert_eq!(lines.len(), 0);
}
