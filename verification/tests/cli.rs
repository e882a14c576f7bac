use omavault::cli::{parse, Command, MAX_LIMIT, USAGE};
use omavault::paths::ROOT_ENV_VAR;

fn args(values: &[&str]) -> Vec<String> {
    values.iter().map(|value| value.to_string()).collect()
}

#[test]
fn parses_status_with_default_limit() {
    assert_eq!(parse(&args(&["status"])).unwrap(), Command::Status { limit: 10 });
}

#[test]
fn parses_status_with_custom_limit() {
    assert_eq!(
        parse(&args(&["status", "--limit", "5"])).unwrap(),
        Command::Status { limit: 5 }
    );
}

#[test]
fn clamps_limit_to_maximum() {
    assert_eq!(
        parse(&args(&["status", "--limit", "500"])).unwrap(),
        Command::Status { limit: MAX_LIMIT }
    );
}

#[test]
fn clamps_limit_to_minimum() {
    assert_eq!(
        parse(&args(&["status", "--limit", "0"])).unwrap(),
        Command::Status { limit: 1 }
    );
}

#[test]
fn rejects_invalid_limit() {
    assert!(parse(&args(&["status", "--limit", "abc"])).is_err());
}

#[test]
fn rejects_limit_without_value() {
    assert!(parse(&args(&["status", "--limit"])).is_err());
}

#[test]
fn parses_init_unlock_and_lock() {
    assert_eq!(parse(&args(&["init"])).unwrap(), Command::Init);
    assert_eq!(
        parse(&args(&["unlock"])).unwrap(),
        Command::Unlock { recovery_key: false }
    );
    assert_eq!(
        parse(&args(&["unlock", "--recovery-key"])).unwrap(),
        Command::Unlock { recovery_key: true }
    );
    assert_eq!(parse(&args(&["lock"])).unwrap(), Command::Lock { lazy: false });
    assert_eq!(parse(&args(&["lock", "--lazy"])).unwrap(), Command::Lock { lazy: true });
}

#[test]
fn parses_set_passphrase() {
    assert_eq!(parse(&args(&["set-passphrase"])).unwrap(), Command::SetPassphrase);
}

#[test]
fn parses_restore_and_discard() {
    assert_eq!(parse(&args(&["restore"])).unwrap(), Command::Restore);
    assert_eq!(parse(&args(&["discard"])).unwrap(), Command::Discard);
}

#[test]
fn rejects_root_option() {
    assert!(parse(&args(&["status", "--root", "/tmp/other"])).is_err());
}

#[test]
fn rejects_root_without_value() {
    assert!(parse(&args(&["status", "--root"])).is_err());
}

#[test]
fn parses_help_flags() {
    assert_eq!(parse(&args(&["--help"])).unwrap(), Command::Help);
    assert_eq!(parse(&args(&["-h"])).unwrap(), Command::Help);
}

#[test]
fn rejects_unknown_command() {
    assert!(parse(&args(&["explode"])).is_err());
}

#[test]
fn rejects_missing_command() {
    assert!(parse(&args(&[])).is_err());
}

#[test]
fn rejects_unexpected_extra_positional() {
    assert!(parse(&args(&["status", "extra"])).is_err());
}

#[test]
fn usage_mentions_env_var() {
    assert!(USAGE.contains(ROOT_ENV_VAR));
}

#[test]
fn parse_error_messages_name_the_problem() {
    assert_eq!(
        parse(&args(&["status", "--limit"])).unwrap_err(),
        "--limit requires a value"
    );
    assert_eq!(
        parse(&args(&["status", "--limit", "abc"])).unwrap_err(),
        "invalid --limit value: abc"
    );
    assert_eq!(
        parse(&args(&["status", "extra"])).unwrap_err(),
        "unexpected argument: extra"
    );
    assert_eq!(parse(&args(&["explode"])).unwrap_err(), "unknown command: explode");
    assert_eq!(
        parse(&args(&[])).unwrap_err(),
        format!("missing command\n{}", USAGE)
    );
}

#[test]
fn parses_version_flags() {
    assert_eq!(parse(&args(&["-V"])).unwrap(), Command::Version);
    assert_eq!(parse(&args(&["status", "--version"])).unwrap(), Command::Version);
}

#[test]
fn limit_accepts_plus_sign_and_rejects_minus_sign() {
    assert_eq!(
        parse(&args(&["status", "--limit", "+7"])).unwrap(),
        Command::Status { limit: 7 }
    );
    assert!(parse(&args(&["status", "--limit", "-7"])).is_err());
    assert!(parse(&args(&["status", "--limit", "+"])).is_err());
    assert!(parse(&args(&["status", "--limit", ""])).is_err());
}

#[test]
fn limit_that_overflows_is_invalid() {
    assert!(parse(&args(&["status", "--limit", "99999999999999999999999"])).is_err());
}

#[test]
fn last_limit_wins_and_options_may_precede_the_command() {
    assert_eq!(
        parse(&args(&["--limit", "3", "status", "--limit", "42"])).unwrap(),
        Command::Status { limit: 42 }
    );
    assert_eq!(
        parse(&args(&["--lazy", "lock"])).unwrap(),
        Command::Lock { lazy: true }
    );
}

#[test]
fn limit_in_range_for_any_value() {
    for value in ["0", "1", "50", "100", "101", "18446744073709551615"] {
        match parse(&args(&["status", "--limit", value])).unwrap() {
            Command::Status { limit } => assert!(limit >= 1 && limit <= MAX_LIMIT),
            other => panic!("unexpected command {:?}", other),
        }
    }
}
