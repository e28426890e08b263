use std::collections::HashSet;

use sm_action::ci::{ContinuousIntegration, GithubActionsRunner};
use sm_action::filecmd::{format_file_command, make_delimiter, read_file_command};
use sm_action::orchestrate::set_secret;

/// Reads the record for `name` back out of a buffer of records, as the
/// job runtime would, returning the value and the delimiter token.
fn read_output(buffer: &str, name: &str) -> (String, String) {
    let (value, delimiter) = read_file_command(buffer, name).unwrap();
    assert!(delimiter.starts_with("ghadelimiter_"));
    (value, delimiter)
}

#[test]
fn test_gh_stuff() {
    let mut gh = GithubActionsRunner::new(vec![]);

    let _ = gh.set_output("NAME1", "VALUE1");
    let _ = gh.set_output("NAME2", "VALUE2\nNEWLINE");
    let _ = gh.set_output("NAME3", "\nVALUE3\n\t\t\t\tNEWLINE");

    let binding = gh.output_text().clone();

    let (value_1, delimiter_value_1) = read_output(&binding, "NAME1");
    let (value_2, delimiter_value_2) = read_output(&binding, "NAME2");
    let (value_3, delimiter_value_3) = read_output(&binding, "NAME3");

    assert_eq!(value_1, "VALUE1");
    assert_eq!(value_2, "VALUE2\nNEWLINE");
    assert_eq!(value_3, "\nVALUE3\n\t\t\t\tNEWLINE");
    assert_ne!(delimiter_value_1, delimiter_value_2);
    assert_ne!(delimiter_value_2, delimiter_value_3);
}

#[test]
fn test_set_secrets() {
    let secret_name = "TEST_SECRET";
    let secret_value = r#"BrowserSettings__EnvironmentUrl=https://example.com

    # Browser Settings 2
    BrowserSettings__EnvironmentUrl=https://example2.com"#;

    let mut ci = GithubActionsRunner::new(vec![]);

    // Run the function
    set_secret(&mut ci, secret_name, secret_value, true).unwrap();

    let (env_value, _) = read_file_command(ci.env_text(), secret_name).unwrap();
    let (out_value, _) = read_file_command(ci.output_text(), secret_name).unwrap();
    assert_eq!(env_value, secret_value.to_string());
    assert_eq!(out_value, secret_value.to_string());
}

#[test]
fn test_set_secrets_with_set_env_disabled() {
    let secret_name = "TEST_SECRET";
    let secret_value = r#"BrowserSettings__EnvironmentUrl=https://example.com

    # Browser Settings 2
    BrowserSettings__EnvironmentUrl=https://example2.com"#;

    let mut ci = GithubActionsRunner::new(vec![]);

    // Run the function
    set_secret(&mut ci, secret_name, secret_value, false).unwrap();

    assert_eq!(read_file_command(ci.env_text(), secret_name), None);
    let (out_value, _) = read_file_command(ci.output_text(), secret_name).unwrap();
    assert_eq!(out_value, secret_value.to_string());
}

#[test]
fn test_set_secret_masks_exactly_once_before_writing() {
    let mut ci = GithubActionsRunner::new(vec![]);
    set_secret(&mut ci, "NAME", "hunter2", false).unwrap();
    assert_eq!(ci.masked_so_far(), &vec!["hunter2".to_string()]);
    assert!(ci.env_text().is_empty());
    assert!(!ci.output_text().is_empty());

    let mut ci = GithubActionsRunner::new(vec![]);
    set_secret(&mut ci, "NAME", "hunter2", true).unwrap();
    assert_eq!(ci.masked_so_far(), &vec!["hunter2".to_string()]);
    assert!(!ci.env_text().is_empty());
}

#[test]
fn test_runner_get_input_applies_blank_rule() {
    let ci = GithubActionsRunner::new(vec![
        ("ACCESS_TOKEN".to_string(), "tok".to_string()),
        ("SECRETS".to_string(), "   ".to_string()),
    ]);
    assert_eq!(ci.get_input("ACCESS_TOKEN"), Some("tok".to_string()));
    assert_eq!(ci.get_input("SECRETS"), None);
    assert_eq!(ci.get_input("CLOUD_REGION"), None);
}

#[test]
fn test_round_trip_empty_value() {
    let delimiter = make_delimiter();
    let record = format_file_command("KEY", "", &delimiter);
    let (value, d) = read_file_command(&record, "KEY").unwrap();
    assert_eq!(value, "");
    assert_eq!(d, delimiter);
}

#[test]
fn test_round_trip_value_resembling_a_record() {
    // A value that itself looks like a record header and trailer cannot
    // end the record early: only the one fresh random delimiter can.
    let tricky = "KEY<<ghadelimiter_00000000-0000-0000-0000-000000000000\n\
                  sneaky\n\
                  ghadelimiter_00000000-0000-0000-0000-000000000000";
    let delimiter = make_delimiter();
    let record = format_file_command("KEY", tricky, &delimiter);
    let (value, d) = read_file_command(&record, "KEY").unwrap();
    assert_eq!(value, tricky);
    assert_eq!(d, delimiter);
}

#[test]
fn test_round_trip_multi_line_blank_and_tab_lines() {
    let value = "\n\nfirst\n\t \t\n\nlast\n";
    let delimiter = make_delimiter();
    let record = format_file_command("K", value, &delimiter);
    let (got, _) = read_file_command(&record, "K").unwrap();
    assert_eq!(got, value);
}

#[test]
fn test_format_file_command_exact_layout() {
    let record = format_file_command("K", "V1\nV2", "D");
    assert_eq!(record, "K<<D\nV1\nV2\nD\n");
}

#[test]
fn test_read_file_command_missing_key_or_trailer() {
    assert_eq!(read_file_command("A<<D\nx\nD\n", "B"), None);
    // A header without its closing delimiter line is no complete record.
    assert_eq!(read_file_command("A<<D\nx\n", "A"), None);
}

#[test]
fn test_delimiters_are_fresh_every_time() {
    let mut seen = HashSet::new();
    for _ in 0..10_000 {
        let d = make_delimiter();
        assert!(d.starts_with("ghadelimiter_"));
        assert_eq!(d.chars().count(), 49);
        assert!(seen.insert(d), "a delimiter repeated");
    }
}
