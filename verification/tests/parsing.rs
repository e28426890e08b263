use sm_action::ci::GithubActionsRunner;
use sm_action::filecmd::read_file_command;
use sm_action::orchestrate::{
    apply_secrets, gather_inputs, plan_writes, prepare_from_inputs, WriteAction,
};
use sm_action::secrets::{parse_secret_input, RetrievedSecret, SecretId};

fn id(text: &str) -> SecretId {
    SecretId::parse(text).unwrap()
}

#[test]
fn test_parse_secret_lines() {
    let parsed = parse_secret_input(vec![
        "91ba3f10-a9a2-4795-bacf-0eee2d39a074 > ONE".to_string(),
        "bfd7aa33-54f2-487b-bbbf-4a69b49fdc0d > TWO".to_string(),
    ])
    .unwrap();
    let id_to_name_map = parsed.map;

    assert_eq!(id_to_name_map.len(), 2);
    assert_eq!(
        id_to_name_map.get(id("91ba3f10-a9a2-4795-bacf-0eee2d39a074")),
        Some(&"ONE".to_string())
    );

    assert_eq!(
        id_to_name_map.get(id("bfd7aa33-54f2-487b-bbbf-4a69b49fdc0d")),
        Some(&"TWO".to_string())
    );
}

#[test]
fn test_parse_secret_lines_two() {
    let parsed = parse_secret_input(vec![
        "91ba3f10-a9a2-4795-bacf-0eee2d39a074 > ONE".to_string(),
        "91ba3f10-a9a2-4795-bacf-0eee2d39a074 > TWO".to_string(),
    ])
    .unwrap();
    let id_to_name_map = parsed.map;

    assert_eq!(id_to_name_map.len(), 1); // We expect only one entry since the UUID is the same

    assert_eq!(
        id_to_name_map.get(id("91ba3f10-a9a2-4795-bacf-0eee2d39a074")),
        Some(&"TWO".to_string())
    );
}

#[test]
fn test_parse_secret_lines_invalid_uuid() {
    let id_to_name_map = parse_secret_input(vec![
        "invalid-uuid > INVALID".to_string(),
        "91ba3f10-a9a2-4795-bacf-0eee2d39a074 > VALID".to_string(),
    ]);

    assert!(id_to_name_map.is_err());
}

#[test]
fn test_parse_invalid_uuid_message_names_the_segment() {
    let e = parse_secret_input(vec!["invalid-uuid > X".to_string()]).unwrap_err();
    assert_eq!(e.message(), "Invalid UUID format: invalid-uuid");
}

#[test]
fn test_parse_duplicate_emits_one_warning() {
    let parsed = parse_secret_input(vec![
        "91ba3f10-a9a2-4795-bacf-0eee2d39a074 > ONE".to_string(),
        "91ba3f10-a9a2-4795-bacf-0eee2d39a074 > TWO".to_string(),
    ])
    .unwrap();
    assert_eq!(parsed.warnings.len(), 1);
    let w = &parsed.warnings[0];
    assert_eq!(w.id, id("91ba3f10-a9a2-4795-bacf-0eee2d39a074"));
    assert_eq!(w.old_name, "ONE");
    assert_eq!(w.new_name, "TWO");
}

#[test]
fn test_parse_line_without_name_and_extra_separators() {
    // No name segment at all yields the empty name; a third segment is
    // ignored, the name is the text between the first two separators.
    let parsed = parse_secret_input(vec![
        "91ba3f10-a9a2-4795-bacf-0eee2d39a074".to_string(),
    ])
    .unwrap();
    assert_eq!(
        parsed.map.get(id("91ba3f10-a9a2-4795-bacf-0eee2d39a074")),
        Some(&"".to_string())
    );

    let parsed = parse_secret_input(vec![
        "91ba3f10-a9a2-4795-bacf-0eee2d39a074 > A > B".to_string(),
    ])
    .unwrap();
    assert_eq!(
        parsed.map.get(id("91ba3f10-a9a2-4795-bacf-0eee2d39a074")),
        Some(&"A".to_string())
    );
}

#[test]
fn test_secret_id_parse_accepts_equivalent_renderings() {
    // The same UUID in different accepted renderings names the same id;
    // a malformed string parses to nothing.
    let hyphenated = id("91ba3f10-a9a2-4795-bacf-0eee2d39a074");
    let simple = id("91ba3f10a9a24795bacf0eee2d39a074");
    assert_eq!(hyphenated, simple);
    assert!(SecretId::parse("not-a-uuid").is_none());
    assert!(SecretId::parse("").is_none());
}

fn retrieved(id_text: &str, value: &str) -> RetrievedSecret {
    RetrievedSecret { id: id(id_text), value: value.to_string() }
}

#[test]
fn test_plan_writes_orders_mask_env_output() {
    let parsed = parse_secret_input(vec![
        "91ba3f10-a9a2-4795-bacf-0eee2d39a074 > ONE".to_string(),
    ])
    .unwrap();
    let response = vec![retrieved("91ba3f10-a9a2-4795-bacf-0eee2d39a074", "v1")];

    let actions = plan_writes(&parsed.map, &response, true);
    assert_eq!(actions.len(), 3);
    assert!(matches!(&actions[0], WriteAction::Mask { value } if value == "v1"));
    assert!(
        matches!(&actions[1], WriteAction::SetEnv { name, value } if name == "ONE" && value == "v1")
    );
    assert!(
        matches!(&actions[2], WriteAction::SetOutput { name, value } if name == "ONE" && value == "v1")
    );

    let actions = plan_writes(&parsed.map, &response, false);
    assert_eq!(actions.len(), 2);
    assert!(matches!(&actions[0], WriteAction::Mask { value } if value == "v1"));
    assert!(
        matches!(&actions[1], WriteAction::SetOutput { name, value } if name == "ONE" && value == "v1")
    );
}

#[test]
fn test_plan_writes_skips_unrequested_and_tolerates_unreturned() {
    let parsed = parse_secret_input(vec![
        "91ba3f10-a9a2-4795-bacf-0eee2d39a074 > ONE".to_string(),
        "bfd7aa33-54f2-487b-bbbf-4a69b49fdc0d > TWO".to_string(),
    ])
    .unwrap();
    // The response holds one secret that was never requested and lacks
    // one that was: the former produces no action, the latter none
    // either, and neither is an error.
    let response = vec![
        retrieved("00000000-0000-0000-0000-000000000001", "stray"),
        retrieved("91ba3f10-a9a2-4795-bacf-0eee2d39a074", "v1"),
    ];
    let actions = plan_writes(&parsed.map, &response, true);
    assert_eq!(actions.len(), 3);
    assert!(
        matches!(&actions[2], WriteAction::SetOutput { name, value } if name == "ONE" && value == "v1")
    );

    let empty_response: Vec<RetrievedSecret> = vec![];
    assert_eq!(plan_writes(&parsed.map, &empty_response, true).len(), 0);
}

fn inputs(pairs: &[(&str, &str)]) -> Vec<(String, String)> {
    pairs.iter().map(|(k, v)| (k.to_string(), v.to_string())).collect()
}

#[test]
fn test_prepare_from_gathered_inputs() {
    let runner = GithubActionsRunner::new(inputs(&[
        ("ACCESS_TOKEN", "fake_access_token"),
        ("SECRETS", "de66de56-0b1f-42ff-8033-8b7866416520 > SECRET_NAME"),
        ("CLOUD_REGION", "EU"),
    ]));
    let raw = gather_inputs(&runner);
    let plan = prepare_from_inputs(raw).unwrap();
    assert_eq!(plan.api_url, "https://api.bitwarden.eu");
    assert_eq!(plan.identity_url, "https://identity.bitwarden.eu");
    assert_eq!(plan.ids, vec![id("de66de56-0b1f-42ff-8033-8b7866416520")]);
    assert_eq!(
        plan.secrets.map.get(id("de66de56-0b1f-42ff-8033-8b7866416520")),
        Some(&"SECRET_NAME".to_string())
    );
    assert!(plan.config.set_env);
}

#[test]
fn test_prepare_rejects_bad_batch_before_anything_else_could_run() {
    let runner = GithubActionsRunner::new(inputs(&[
        ("ACCESS_TOKEN", "fake_access_token"),
        ("SECRETS", "invalid-uuid > X"),
    ]));
    let e = prepare_from_inputs(gather_inputs(&runner)).unwrap_err();
    assert_eq!(e.message(), "Invalid UUID format: invalid-uuid");
}

#[test]
fn test_prepare_reports_missing_inputs() {
    let runner = GithubActionsRunner::new(vec![]);
    let e = prepare_from_inputs(gather_inputs(&runner)).unwrap_err();
    assert_eq!(e.message(), "Access token is required");

    let runner = GithubActionsRunner::new(inputs(&[("ACCESS_TOKEN", "t")]));
    let e = prepare_from_inputs(gather_inputs(&runner)).unwrap_err();
    assert_eq!(e.message(), "Secrets are required");
}

#[test]
fn test_prepare_rejects_half_a_url_pair() {
    let runner = GithubActionsRunner::new(inputs(&[
        ("ACCESS_TOKEN", "t"),
        ("SECRETS", "de66de56-0b1f-42ff-8033-8b7866416520 > S"),
        ("API_URL", "https://api.example.com"),
    ]));
    let e = prepare_from_inputs(gather_inputs(&runner)).unwrap_err();
    assert_eq!(
        e.message(),
        "Both API and Identity URLs must be provided if one is specified"
    );
}

#[test]
fn test_apply_secrets_delivers_requested_secrets_only() {
    let parsed = parse_secret_input(vec![
        "91ba3f10-a9a2-4795-bacf-0eee2d39a074 > ONE".to_string(),
        "bfd7aa33-54f2-487b-bbbf-4a69b49fdc0d > TWO".to_string(),
    ])
    .unwrap();
    let response = vec![
        retrieved("00000000-0000-0000-0000-000000000001", "stray"),
        retrieved("91ba3f10-a9a2-4795-bacf-0eee2d39a074", "v1"),
    ];

    let mut ci = GithubActionsRunner::new(vec![]);
    apply_secrets(&mut ci, &parsed.map, &response, false).unwrap();

    // The one requested-and-returned secret reaches the output under its
    // requested name, masked first; the stray one leaves no trace, the
    // unreturned one neither; nothing touches the environment.
    assert_eq!(ci.masked_so_far(), &vec!["v1".to_string()]);
    let (value, _) = read_file_command(ci.output_text(), "ONE").unwrap();
    assert_eq!(value, "v1");
    assert_eq!(read_file_command(ci.output_text(), "TWO"), None);
    assert!(ci.env_text().is_empty());
}
