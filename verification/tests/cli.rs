use living_postmortem_mcp::cli::{parse_cli_args, usage, CliAction};

fn args(items: &[&str]) -> Vec<String> {
    items.iter().map(|s| s.to_string()).collect()
}

#[test]
fn vault_is_required() {
    assert_eq!(
        parse_cli_args(args(&[])).unwrap_err(),
        "missing required --vault argument"
    );
}

#[test]
fn vault_path_is_read() {
    match parse_cli_args(args(&["--vault", "/tmp/a", "--vault", "/tmp/b"])) {
        Ok(CliAction::Run(path)) => assert_eq!(path, "/tmp/b"),
        other => panic!("unexpected {other:?}"),
    }
}

#[test]
fn help_wins_when_seen_first() {
    assert!(matches!(parse_cli_args(args(&["-h", "--bogus"])), Ok(CliAction::Help)));
    assert!(matches!(parse_cli_args(args(&["--vault", "v", "--help"])), Ok(CliAction::Help)));
}

#[test]
fn missing_vault_value_and_unknown_argument() {
    assert_eq!(
        parse_cli_args(args(&["--vault"])).unwrap_err(),
        "--vault requires a path value"
    );
    assert_eq!(
        parse_cli_args(args(&["--bogus", "--help"])).unwrap_err(),
        "unknown argument: --bogus"
    );
}

#[test]
fn usage_text() {
    assert_eq!(usage(), "Usage: living-postmortem-mcp --vault <path>");
}
