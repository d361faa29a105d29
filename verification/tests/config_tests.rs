use toggl_cli::config::{load_config, merge_config, update_config, Config};
use toggl_cli::config_file::{parse_config, parse_u64, render_config};
use toggl_cli::errors::{AppError, ConfigField};

fn empty_config() -> Config {
    Config { api_token: None, workspace_id: None, project_id: None, projects: None }
}

#[test]
fn parse_empty_text_is_all_absent() {
    let c = parse_config("").unwrap();
    assert_eq!(c.api_token, None);
    assert_eq!(c.workspace_id, None);
    assert_eq!(c.project_id, None);
}

#[test]
fn parse_blank_lines_are_skipped() {
    let c = parse_config("\n\n").unwrap();
    assert_eq!(c.workspace_id, None);
}

#[test]
fn parse_all_fields() {
    let c = parse_config("API_TOKEN=abc\nWORKSPACE_ID=12\nPROJECT_ID=7\n").unwrap();
    assert_eq!(c.api_token, Some("abc".to_string()));
    assert_eq!(c.workspace_id, Some(12));
    assert_eq!(c.project_id, Some(7));
}

#[test]
fn parse_token_value_may_hold_equals_sign() {
    let c = parse_config("API_TOKEN=abc=def\n").unwrap();
    assert_eq!(c.api_token, Some("abc=def".to_string()));
}

#[test]
fn parse_unknown_keys_are_ignored() {
    let c = parse_config("FOO=bar\nWORKSPACE_ID=3\n").unwrap();
    assert_eq!(c.workspace_id, Some(3));
    assert_eq!(c.api_token, None);
}

#[test]
fn parse_last_occurrence_wins() {
    let c = parse_config("WORKSPACE_ID=1\nWORKSPACE_ID=3\n").unwrap();
    assert_eq!(c.workspace_id, Some(3));
}

#[test]
fn parse_non_numeric_id_is_fatal_and_names_the_field() {
    let e = parse_config("WORKSPACE_ID=2x\n").unwrap_err();
    assert_eq!(e, AppError::ConfigParse(ConfigField::WorkspaceId));
    assert_eq!(e.message(), "could not parse WORKSPACE_ID");
}

#[test]
fn parse_bad_project_id_names_project_field() {
    let e = parse_config("PROJECT_ID=\n").unwrap_err();
    assert_eq!(e, AppError::ConfigParse(ConfigField::ProjectId));
    assert_eq!(e.message(), "could not parse PROJECT_ID");
}

#[test]
fn parse_line_without_equals_is_fatal() {
    let e = parse_config("garbage\n").unwrap_err();
    assert_eq!(e, AppError::ConfigSyntax);
}

#[test]
fn parse_u64_edges() {
    assert_eq!(parse_u64(""), None);
    assert_eq!(parse_u64("0"), Some(0));
    assert_eq!(parse_u64("007"), Some(7));
    assert_eq!(parse_u64("1a"), None);
    assert_eq!(parse_u64("18446744073709551615"), Some(u64::MAX));
    assert_eq!(parse_u64("18446744073709551616"), None);
}

#[test]
fn render_writes_one_line_per_present_field() {
    let mut c = empty_config();
    c.workspace_id = Some(42);
    assert_eq!(render_config(&c), "WORKSPACE_ID=42\n");
    c.api_token = Some("t".to_string());
    c.project_id = Some(9);
    assert_eq!(render_config(&c), "API_TOKEN=t\nWORKSPACE_ID=42\nPROJECT_ID=9\n");
    assert_eq!(render_config(&empty_config()), "");
}

#[test]
fn merge_local_wins_per_field() {
    let mut local = empty_config();
    local.workspace_id = Some(2);
    let mut global = empty_config();
    global.workspace_id = Some(1);
    global.project_id = Some(5);
    let merged = merge_config(local, global);
    assert_eq!(merged.workspace_id, Some(2));
    assert_eq!(merged.project_id, Some(5));
    assert_eq!(merged.api_token, None);
}

#[test]
fn load_config_local_overrides_global() {
    let c = load_config(Some("WORKSPACE_ID=1\n"), Some("WORKSPACE_ID=2\n")).unwrap();
    assert_eq!(c.workspace_id, Some(2));
}

#[test]
fn load_config_global_wins_when_local_silent() {
    let c = load_config(Some("WORKSPACE_ID=1\nPROJECT_ID=4\n"), Some("PROJECT_ID=6\n")).unwrap();
    assert_eq!(c.workspace_id, Some(1));
    assert_eq!(c.project_id, Some(6));
}

#[test]
fn load_config_absent_everywhere_stays_absent() {
    let c = load_config(None, None).unwrap();
    assert_eq!(c.workspace_id, None);
    assert_eq!(c.project_id, None);
    assert_eq!(c.api_token, None);
}

#[test]
fn load_config_missing_global_still_takes_local() {
    let c = load_config(None, Some("WORKSPACE_ID=8\n")).unwrap();
    assert_eq!(c.workspace_id, Some(8));
}

#[test]
fn load_config_bad_global_is_fatal() {
    let e = load_config(Some("WORKSPACE_ID=x\n"), Some("WORKSPACE_ID=2\n")).unwrap_err();
    assert_eq!(e, AppError::ConfigParse(ConfigField::WorkspaceId));
}

#[test]
fn update_config_applies_only_present_fields() {
    let mut delta = empty_config();
    delta.project_id = Some(9);
    let (text, warned) = update_config(true, delta, Some("WORKSPACE_ID=1\nPROJECT_ID=2\n"))
        .unwrap();
    assert_eq!(text, "WORKSPACE_ID=1\nPROJECT_ID=9\n");
    assert!(!warned);
}

#[test]
fn update_config_starts_from_empty_layer() {
    let mut delta = empty_config();
    delta.workspace_id = Some(3);
    let (text, warned) = update_config(false, delta, None).unwrap();
    assert_eq!(text, "WORKSPACE_ID=3\n");
    assert!(!warned);
}

#[test]
fn update_config_rejects_local_credential_with_warning() {
    let mut delta = empty_config();
    delta.api_token = Some("tok".to_string());
    delta.workspace_id = Some(5);
    let (text, warned) = update_config(false, delta, None).unwrap();
    assert!(warned);
    assert_eq!(text, "WORKSPACE_ID=5\n");
}

#[test]
fn update_config_global_credential_is_accepted() {
    let mut delta = empty_config();
    delta.api_token = Some("tok".to_string());
    let (text, warned) = update_config(true, delta, None).unwrap();
    assert!(!warned);
    assert_eq!(text, "API_TOKEN=tok\n");
}

#[test]
fn update_methods_ignore_absent_values() {
    let mut c = empty_config();
    c.workspace_id = Some(1);
    c.project_id = Some(2);
    c.update_workspace_id(None);
    c.update_project_id(Some(7));
    c.update_api_token(None);
    assert_eq!(c.workspace_id, Some(1));
    assert_eq!(c.project_id, Some(7));
    assert_eq!(c.api_token, None);
}

#[test]
fn start_parameters_needs_workspace() {
    let mut c = empty_config();
    let e = c.start_parameters(Some(4)).unwrap_err();
    assert_eq!(e, AppError::MissingPrecondition(ConfigField::WorkspaceId));
    assert_eq!(e.message(), "WORKSPACE_ID is not set; set it via configuration");
    c.workspace_id = Some(10);
    c.project_id = Some(2);
    assert_eq!(c.start_parameters(None).unwrap(), (10, Some(2)));
    assert_eq!(c.start_parameters(Some(4)).unwrap(), (10, Some(4)));
}
