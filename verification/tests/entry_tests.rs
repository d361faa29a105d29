use toggl_cli::config::Config;
use toggl_cli::dates::Date;
use toggl_cli::errors::AppError;
use toggl_cli::time_entry::{
    default_if_empty, find_project_name, first_stopped_index, LocalStamp, Project, TimeEntry,
    TimeEntryDto,
};

fn empty_config() -> Config {
    Config { api_token: None, workspace_id: None, project_id: None, projects: None }
}

fn dto(start: &str, stop: Option<&str>) -> TimeEntryDto {
    TimeEntryDto {
        id: 11,
        workspace_id: 3,
        description: Some("write docs".to_string()),
        project_id: Some(2),
        start: start.to_string(),
        stop: stop.map(|s| s.to_string()),
        duration: -1_700_000_000,
    }
}

#[test]
fn from_dto_decodes_a_running_record() {
    let e = TimeEntry::from_dto(&dto("2023-11-14T22:13:20Z", None), &empty_config()).unwrap();
    assert_eq!(e.id, 11);
    assert_eq!(e.workspace_id, 3);
    assert_eq!(e.description, Some("write docs".to_string()));
    assert_eq!(e.project_id, Some(2));
    assert_eq!(e.project_name, None);
    assert_eq!(e.start.epoch, 1_700_000_000);
    assert!(e.stop.is_none());
    assert_eq!(e.duration, -1_700_000_000);
}

#[test]
fn from_dto_decodes_a_stopped_record() {
    let e = TimeEntry::from_dto(
        &dto("2023-11-14T22:13:20Z", Some("2023-11-14T22:43:20Z")),
        &empty_config(),
    )
    .unwrap();
    let stop = e.stop.unwrap();
    assert_eq!(stop.epoch - e.start.epoch, 1800);
}

#[test]
fn from_dto_malformed_timestamp_is_fatal() {
    let e = TimeEntry::from_dto(&dto("not a timestamp", None), &empty_config()).unwrap_err();
    assert_eq!(e, AppError::RecordParse);
    assert_eq!(e.message(), "could not parse a time entry record");
}

#[test]
fn from_dto_malformed_stop_is_fatal_too() {
    let e = TimeEntry::from_dto(&dto("2023-11-14T22:13:20Z", Some("eh")), &empty_config())
        .unwrap_err();
    assert_eq!(e, AppError::RecordParse);
}

#[test]
fn from_dto_resolves_the_project_name() {
    let mut config = empty_config();
    config.projects = Some(vec![
        Project { id: 1, name: "one".to_string() },
        Project { id: 2, name: "two".to_string() },
    ]);
    let e = TimeEntry::from_dto(&dto("2023-11-14T22:13:20Z", None), &config).unwrap();
    assert_eq!(e.project_name, Some("two".to_string()));
}

#[test]
fn find_project_name_takes_first_match() {
    let table = Some(vec![
        Project { id: 1, name: "a".to_string() },
        Project { id: 2, name: "b".to_string() },
        Project { id: 1, name: "c".to_string() },
    ]);
    assert_eq!(find_project_name(Some(1), &table), Some("a".to_string()));
    assert_eq!(find_project_name(Some(2), &table), Some("b".to_string()));
    assert_eq!(find_project_name(Some(9), &table), None);
    assert_eq!(find_project_name(None, &table), None);
    assert_eq!(find_project_name(Some(1), &None), None);
}

#[test]
fn empty_description_normalizes_to_placeholder() {
    // Both an absent and an empty description render as "no description".
    let today = Date { year: 2026, month: 10, day: 12 };
    let mut e = TimeEntry {
        id: 1,
        workspace_id: 1,
        description: None,
        project_id: None,
        project_name: None,
        start: LocalStamp { epoch: 0, date: today, hour: 8, minute: 0 },
        stop: Some(LocalStamp { epoch: 0, date: today, hour: 8, minute: 30 }),
        duration: 1800,
    };
    assert_eq!(e.render(&today), "08:00 - 08:30 (30 min)\tno description");
    e.description = Some("".to_string());
    assert_eq!(e.render(&today), "08:00 - 08:30 (30 min)\tno description");
    e.description = Some("real work".to_string());
    assert_eq!(e.render(&today), "08:00 - 08:30 (30 min)\treal work");
}

#[test]
fn default_if_empty_falls_back() {
    let default = "no description".to_string();
    let empty = "".to_string();
    let text = "x".to_string();
    assert_eq!(default_if_empty(&empty, &default), "no description");
    assert_eq!(default_if_empty(&text, &default), "x");
}

#[test]
fn first_stopped_index_skips_running_entries() {
    let running = dto("2023-11-14T22:13:20Z", None);
    let stopped = dto("2023-11-14T22:13:20Z", Some("2023-11-14T22:43:20Z"));
    let both = vec![running, stopped];
    assert_eq!(first_stopped_index(&both), Some(1));
    let only_running = vec![dto("2023-11-14T22:13:20Z", None)];
    assert_eq!(first_stopped_index(&only_running), None);
    assert_eq!(first_stopped_index(&Vec::new()), None);
}
