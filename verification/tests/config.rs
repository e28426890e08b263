use sm_action::config::{infer_urls, validate_urls, normalize_input, Config, EnvironmentType, RawInputs};
use sm_action::errors::Error;

fn base_config() -> Config {
    Config {
        access_token: "fake_access_token".to_string(),
        secrets: vec!["de66de56-0b1f-42ff-8033-8b7866416520 > SECRET_NAME".to_string()],
        cloud_region: EnvironmentType::Other,
        base_url: None,
        api_url: None,
        identity_url: None,
        set_env: true,
    }
}

#[test]
fn test_infer_urls_with_both_api_and_identity() {
    let config = Config {
        api_url: Some("https://api.example.com".to_string()),
        identity_url: Some("https://identity.example.com".to_string()),
        ..base_config()
    };

    let (api_url, identity_url) = infer_urls(&config).unwrap();
    assert_eq!(api_url, "https://api.example.com");
    assert_eq!(identity_url, "https://identity.example.com");
}

#[test]
fn test_infer_urls_defaults_to_us_cloud_region() {
    let config = base_config();

    let (api_url, identity_url) = infer_urls(&config).unwrap();
    assert_eq!(api_url, "https://api.bitwarden.com");
    assert_eq!(identity_url, "https://identity.bitwarden.com");
}

#[test]
fn test_infer_urls_with_base_url_only() {
    let config = Config { base_url: Some("https://example.com".to_string()), ..base_config() };

    let (api_url, identity_url) = infer_urls(&config).unwrap();
    assert_eq!(api_url, "https://example.com/api");
    assert_eq!(identity_url, "https://example.com/identity");
}

#[test]
fn test_infer_urls_with_api_and_identity() {
    let config = Config {
        api_url: Some("https://api.example.com".to_string()),
        identity_url: Some("https://identity.example.com".to_string()),
        ..base_config()
    };

    let (api_url, identity_url) = infer_urls(&config).unwrap();
    assert_eq!(api_url, "https://api.example.com");
    assert_eq!(identity_url, "https://identity.example.com");
}

#[test]
fn test_infer_urls_with_no_urls() {
    let config = base_config();

    let (api_url, identity_url) = infer_urls(&config).unwrap();
    assert_eq!(api_url, "https://api.bitwarden.com");
    assert_eq!(identity_url, "https://identity.bitwarden.com");
}

#[test]
fn test_infer_urls_with_eu_region() {
    let config = Config { cloud_region: EnvironmentType::Eu, ..base_config() };

    let (api_url, identity_url) = infer_urls(&config).unwrap();
    assert_eq!(api_url, "https://api.bitwarden.eu");
    assert_eq!(identity_url, "https://identity.bitwarden.eu");
}

#[test]
fn test_infer_urls_with_us_region() {
    let config = Config { cloud_region: EnvironmentType::Us, ..base_config() };

    let (api_url, identity_url) = infer_urls(&config).unwrap();
    assert_eq!(api_url, "https://api.bitwarden.com");
    assert_eq!(identity_url, "https://identity.bitwarden.com");
}

#[test]
fn test_infer_urls_with_cloud_region_and_base_url_should_use_cloud_region() {
    let config = Config {
        cloud_region: EnvironmentType::Eu,
        base_url: Some("https://example.com".to_string()),
        ..base_config()
    };

    let (api_url, identity_url) = infer_urls(&config).unwrap();
    assert_eq!(api_url, "https://api.bitwarden.eu");
    assert_eq!(identity_url, "https://identity.bitwarden.eu");
}

#[test]
fn test_infer_urls_with_cloud_region_and_api_identity_should_use_cloud_region() {
    let config = Config {
        cloud_region: EnvironmentType::Eu,
        api_url: Some("https://api.example.com".to_string()),
        identity_url: Some("https://identity.example.com".to_string()),
        ..base_config()
    };

    let (api_url, identity_url) = infer_urls(&config).unwrap();
    assert_eq!(api_url, "https://api.bitwarden.eu");
    assert_eq!(identity_url, "https://identity.bitwarden.eu");
}

#[test]
fn test_infer_urls_with_only_api_should_fail() {
    let config = Config { api_url: Some("https://api.example.com".to_string()), ..base_config() };

    let result = infer_urls(&config);
    assert!(result.is_err());
    assert_eq!(
        result.unwrap_err().message(),
        "Both API and Identity URLs must be provided if one is specified"
    );
}

#[test]
fn test_infer_urls_with_only_identity_should_fail() {
    let config = Config {
        identity_url: Some("https://identity.example.com".to_string()),
        ..base_config()
    };

    let result = infer_urls(&config);
    assert!(result.is_err());
    assert_eq!(
        result.unwrap_err().message(),
        "Both API and Identity URLs must be provided if one is specified"
    );
}

#[test]
fn test_normalize_input_blank_counts_as_absent() {
    assert_eq!(normalize_input(None), None);
    assert_eq!(normalize_input(Some("".to_string())), None);
    assert_eq!(normalize_input(Some(" \t\n ".to_string())), None);
    // A non-blank value is kept exactly as it came, untrimmed.
    assert_eq!(normalize_input(Some(" x ".to_string())), Some(" x ".to_string()));
}

#[test]
fn test_region_parsing_ignores_case_and_whitespace() {
    assert_eq!(EnvironmentType::from_input("us"), EnvironmentType::Us);
    assert_eq!(EnvironmentType::from_input(" EU "), EnvironmentType::Eu);
    assert_eq!(EnvironmentType::from_input("Us"), EnvironmentType::Us);
    assert_eq!(EnvironmentType::from_input("eU"), EnvironmentType::Eu);
    assert_eq!(EnvironmentType::from_input(""), EnvironmentType::Other);
    assert_eq!(EnvironmentType::from_input("self-hosted"), EnvironmentType::Other);
}

#[test]
fn test_validate_urls_rejects_schemes_in_order() {
    assert!(validate_urls(None, None, None).is_ok());
    assert!(validate_urls(Some("http://a"), Some("https://b"), Some("http://c")).is_ok());
    let e = validate_urls(Some("ftp://a"), Some("bad"), None).unwrap_err();
    assert_eq!(e.message(), "base_url must start with 'https://' or 'http://'");
    let e = validate_urls(Some("http://a"), Some("bad"), None).unwrap_err();
    assert_eq!(e.message(), "api_url must start with 'https://' or 'http://'");
    let e = validate_urls(None, None, Some("example.com")).unwrap_err();
    assert_eq!(e.message(), "identity_url must start with 'https://' or 'http://'");
}

fn raw_inputs(
    access_token: Option<&str>,
    secrets: Option<&str>,
    cloud_region: Option<&str>,
    set_env: Option<&str>,
) -> RawInputs {
    RawInputs {
        access_token: access_token.map(str::to_string),
        secrets: secrets.map(str::to_string),
        cloud_region: cloud_region.map(str::to_string),
        base_url: None,
        api_url: None,
        identity_url: None,
        set_env: set_env.map(str::to_string),
    }
}

#[test]
fn test_config_new_requires_access_token() {
    let e = Config::new(raw_inputs(None, Some("a > B"), None, None)).unwrap_err();
    assert_eq!(e.message(), "Access token is required");
    // Blank counts as absent.
    let e = Config::new(raw_inputs(Some("  "), Some("a > B"), None, None)).unwrap_err();
    assert_eq!(e.message(), "Access token is required");
}

#[test]
fn test_config_new_requires_secrets() {
    let e = Config::new(raw_inputs(Some("tok"), None, None, None)).unwrap_err();
    assert_eq!(e.message(), "Secrets are required");
}

#[test]
fn test_config_new_splits_and_trims_secret_lines() {
    let config = Config::new(raw_inputs(
        Some("tok"),
        Some("  a > ONE  \n\n\t\n b > TWO\n"),
        None,
        None,
    ))
    .unwrap();
    assert_eq!(config.secrets, vec!["a > ONE".to_string(), "b > TWO".to_string()]);
    assert_eq!(config.cloud_region, EnvironmentType::Other);
}

#[test]
fn test_config_new_set_env_defaults_on_and_false_disables() {
    let config = Config::new(raw_inputs(Some("t"), Some("a"), None, None)).unwrap();
    assert!(config.set_env);
    let config = Config::new(raw_inputs(Some("t"), Some("a"), None, Some("FALSE"))).unwrap();
    assert!(!config.set_env);
    let config = Config::new(raw_inputs(Some("t"), Some("a"), None, Some("true"))).unwrap();
    assert!(config.set_env);
    let config = Config::new(raw_inputs(Some("t"), Some("a"), None, Some("no"))).unwrap();
    assert!(config.set_env);
}

#[test]
fn test_config_new_validates_urls() {
    let mut inputs = raw_inputs(Some("t"), Some("a"), None, None);
    inputs.base_url = Some("example.com".to_string());
    let e = Config::new(inputs).unwrap_err();
    assert_eq!(e.message(), "base_url must start with 'https://' or 'http://'");
}

#[test]
fn test_config_new_region_selects_eu() {
    let config = Config::new(raw_inputs(Some("t"), Some("a"), Some("eu"), None)).unwrap();
    assert_eq!(config.cloud_region, EnvironmentType::Eu);
}

#[test]
fn test_error_io_message_carries_detail() {
    let e = Error::Io { detail: "disk full".to_string() };
    assert_eq!(e.message(), "disk full");
}
