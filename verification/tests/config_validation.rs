use hackathon::cli::Cli;
use hackathon::config::RuntimeConfig;
use hackathon::error::{AppError, PathStatus};

fn base_cli() -> Cli {
    Cli {
        input: "input.csv".to_string(),
        output: "output.csv".to_string(),
        src_lang: "en".to_string(),
        tgt_lang: "ne".to_string(),
        base_url: "https://example.com".to_string(),
        api_token: Some("team_test".to_string()),
        concurrency: 2,
        rate_limit_ms: None,
        max_retries: 3,
        font_path: None,
        dpi: 96,
        jpeg_quality: 85,
        verbose: false,
    }
}

fn validate(cli: &Cli) -> Result<RuntimeConfig, AppError> {
    RuntimeConfig::from_cli(cli, None, PathStatus::Missing)
}

fn invalid_message(r: Result<RuntimeConfig, AppError>) -> String {
    match r {
        Err(AppError::InvalidArgument { message }) => message,
        other => panic!("expected an invalid argument, got {:?}", other),
    }
}

#[test]
fn config_rejects_zero_concurrency() {
    let mut cli = base_cli();
    cli.concurrency = 0;
    assert!(validate(&cli).is_err());
}

#[test]
fn config_rejects_same_language() {
    let mut cli = base_cli();
    cli.tgt_lang = "en".to_string();
    assert!(validate(&cli).is_err());
}

#[test]
fn config_rejects_invalid_dpi() {
    let mut cli = base_cli();
    cli.dpi = 0;
    assert!(validate(&cli).is_err());
}

#[test]
fn config_rejects_invalid_jpeg_quality() {
    let mut cli = base_cli();
    cli.jpeg_quality = 0;
    assert!(validate(&cli).is_err());

    let mut cli = base_cli();
    cli.jpeg_quality = 101;
    assert!(validate(&cli).is_err());
}

#[test]
fn config_accepts_valid_command_line() {
    let cfg = validate(&base_cli()).expect("valid settings");
    assert_eq!(cfg.base_url, "https://example.com");
    assert_eq!(cfg.api_token, "team_test");
    assert_eq!(cfg.concurrency, 2);
    assert_eq!(cfg.rate_limit_ms, None);
    assert_eq!(cfg.max_retries, 3);
    assert_eq!(cfg.font_path, None);
    assert_eq!(cfg.pdf_dpi, 96);
    assert_eq!(cfg.pdf_jpeg_quality, 85);
    assert!(!cfg.debug_bboxes);
}

#[test]
fn config_takes_token_from_environment() {
    let mut cli = base_cli();
    cli.api_token = None;
    let cfg = RuntimeConfig::from_cli(&cli, Some("env_token".to_string()), PathStatus::Missing)
        .expect("token from the environment");
    assert_eq!(cfg.api_token, "env_token");
}

#[test]
fn config_prefers_command_line_token() {
    let cfg = RuntimeConfig::from_cli(&base_cli(), Some("env_token".to_string()), PathStatus::Missing)
        .expect("valid settings");
    assert_eq!(cfg.api_token, "team_test");
}

#[test]
fn config_rejects_missing_or_blank_token() {
    let mut cli = base_cli();
    cli.api_token = None;
    assert!(matches!(validate(&cli), Err(AppError::MissingApiToken)));
    cli.api_token = Some("  \t ".to_string());
    assert!(matches!(validate(&cli), Err(AppError::MissingApiToken)));
}

#[test]
fn config_error_messages() {
    let mut cli = base_cli();
    cli.concurrency = 0;
    assert_eq!(invalid_message(validate(&cli)), "concurrency must be >= 1");

    let mut cli = base_cli();
    cli.max_retries = 0;
    assert_eq!(invalid_message(validate(&cli)), "max-retries must be >= 1");

    let mut cli = base_cli();
    cli.tgt_lang = "EN".to_string();
    assert_eq!(invalid_message(validate(&cli)), "src_lang and tgt_lang must differ");

    let mut cli = base_cli();
    cli.dpi = 0;
    assert_eq!(invalid_message(validate(&cli)), "dpi must be >= 1");

    let mut cli = base_cli();
    cli.jpeg_quality = 0;
    assert_eq!(invalid_message(validate(&cli)), "jpeg-quality must be between 1 and 100");
}

#[test]
fn config_checks_font_path() {
    let mut cli = base_cli();
    cli.font_path = Some("/fonts/missing.ttf".to_string());
    assert_eq!(
        invalid_message(RuntimeConfig::from_cli(&cli, None, PathStatus::Missing)),
        "font path does not exist: /fonts/missing.ttf"
    );
    assert_eq!(
        invalid_message(RuntimeConfig::from_cli(&cli, None, PathStatus::NotAFile)),
        "font path is not a file: /fonts/missing.ttf"
    );
    let cfg = RuntimeConfig::from_cli(&cli, None, PathStatus::File { size: 10 }).expect("font file");
    assert_eq!(cfg.font_path, Some("/fonts/missing.ttf".to_string()));
}
