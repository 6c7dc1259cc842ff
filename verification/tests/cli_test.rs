use wasm_poke::{Cli, OutputMode};

#[test]
fn cli_parses_without_args() {
    let cli = Cli::try_parse_from(&["wasm-poke"]).unwrap();
    assert!(cli.file.is_none());
    assert!(!cli.json);
    assert!(!cli.summary);
    assert_eq!(cli.output_mode(), OutputMode::Gui);
}

#[test]
fn cli_parses_file_arg() {
    let cli = Cli::try_parse_from(&["wasm-poke", "test.wasm"]).unwrap();
    assert_eq!(cli.file.as_deref(), Some("test.wasm"));
    assert_eq!(cli.output_mode(), OutputMode::Gui);
}

#[test]
fn cli_parses_json_flag() {
    let cli = Cli::try_parse_from(&["wasm-poke", "--json", "test.wasm"]).unwrap();
    assert!(cli.json);
    assert!(!cli.summary);
    assert_eq!(cli.output_mode(), OutputMode::Json);
}

#[test]
fn cli_parses_summary_flag() {
    let cli = Cli::try_parse_from(&["wasm-poke", "-s", "test.wasm"]).unwrap();
    assert!(!cli.json);
    assert!(cli.summary);
    assert_eq!(cli.output_mode(), OutputMode::Summary);
}

#[test]
fn cli_rejects_both_json_and_summary() {
    let result = Cli::try_parse_from(&["wasm-poke", "--json", "--summary", "test.wasm"]);
    assert!(result.is_err());
}

#[test]
fn cli_parses_output_option() {
    let cli = Cli::try_parse_from(&["wasm-poke", "--json", "-o", "out.json", "test.wasm"]).unwrap();
    assert_eq!(cli.output.as_deref(), Some("out.json"));
}

#[test]
fn cli_parses_quiet_flag() {
    let cli = Cli::try_parse_from(&["wasm-poke", "-q", "--json", "test.wasm"]).unwrap();
    assert!(cli.quiet);
}

#[test]
fn cli_command_is_valid() {
    Cli::command().debug_assert();
}

#[test]
fn cli_long_and_short_flags_agree() {
    let a = Cli::try_parse_from(&["wasm-poke", "-j", "x.wasm"]).unwrap();
    let b = Cli::try_parse_from(&["wasm-poke", "--json", "x.wasm"]).unwrap();
    assert_eq!(a.json, b.json);
    assert_eq!(a.output_mode(), OutputMode::Json);
    let c = Cli::try_parse_from(&["wasm-poke", "--output", "o.txt", "--summary", "x.wasm"]).unwrap();
    assert_eq!(c.output.as_deref(), Some("o.txt"));
    assert_eq!(c.output_mode(), OutputMode::Summary);
    assert!(!c.quiet);
}

#[test]
fn cli_rejects_unknown_flag_with_error_message() {
    let err = Cli::try_parse_from(&["wasm-poke", "--bogus"]).unwrap_err();
    assert!(err.use_stderr);
    assert_ne!(err.exit_code, 0);
    assert!(err.message.contains("--bogus"));
}

#[test]
fn cli_help_is_not_an_error_exit() {
    let err = Cli::try_parse_from(&["wasm-poke", "--help"]).unwrap_err();
    assert!(!err.use_stderr);
    assert_eq!(err.exit_code, 0);
    assert!(err.message.contains("--summary"));
}

#[test]
fn output_mode_default_is_gui() {
    assert_eq!(OutputMode::default(), OutputMode::Gui);
}

#[test]
fn cli_reads_flags_output_and_file() {
    let cli = Cli::try_parse_from(&["wasm-poke", "-s", "-q", "--output", "o.txt", "in.wasm"]).unwrap();
    assert_eq!(cli.file.as_deref(), Some("in.wasm"));
    assert!(cli.summary && cli.quiet && !cli.json);
    assert_eq!(cli.output.as_deref(), Some("o.txt"));
    assert!(Cli::try_parse_from(&["wasm-poke", "--bogus"]).is_err());
}
