use gmail_to_rag::{parse_args, CliError, Config};

fn args(list: &[&str]) -> Vec<String> {
    list.iter().map(|s| s.to_string()).collect()
}

#[test]
fn one_positional_argument_is_the_mbox() {
    let parsed = parse_args(&args(&["prog", "mail.mbox"])).unwrap();
    assert_eq!(parsed.mbox_path, "mail.mbox");
    assert_eq!(parsed.output_dir, None);
    assert_eq!(parsed.config_path, None);
    assert_eq!(parsed.config_file(), "./config.toml");
    assert_eq!(parsed.output_dir_or_default(&Config::default()), "./emails");
}

#[test]
fn config_flag_and_output_dir() {
    let parsed = parse_args(&args(&["prog", "--config", "c.toml", "mail.mbox", "out"])).unwrap();
    assert_eq!(parsed.mbox_path, "mail.mbox");
    assert_eq!(parsed.output_dir.as_deref(), Some("out"));
    assert_eq!(parsed.config_file(), "c.toml");
    assert_eq!(parsed.output_dir_or_default(&Config::default()), "out");
}

#[test]
fn last_config_flag_wins_and_may_come_last() {
    let parsed = parse_args(&args(&["prog", "m", "--config", "a", "--config", "b"])).unwrap();
    assert_eq!(parsed.config_path.as_deref(), Some("b"));
}

#[test]
fn config_flag_without_value_is_refused() {
    assert_eq!(parse_args(&args(&["prog", "m", "--config"])).unwrap_err(), CliError::MissingConfigValue);
}

#[test]
fn wrong_number_of_positionals_is_refused() {
    assert_eq!(parse_args(&args(&["prog"])).unwrap_err(), CliError::Usage);
    assert_eq!(parse_args(&args(&["prog", "a", "b", "c"])).unwrap_err(), CliError::Usage);
    assert_eq!(parse_args(&args(&["prog", "--config", "x"])).unwrap_err(), CliError::Usage);
}
