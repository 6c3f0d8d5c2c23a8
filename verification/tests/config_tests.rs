use minigrep::Config;
use minigrep::ConfigError;

#[test]
fn missing_query() {
    let args = vec![String::from("prog")];
    assert!(matches!(Config::build(&args, false), Err(ConfigError::MissingQuery)));
}

#[test]
fn missing_file_path() {
    let args = vec![String::from("prog"), String::from("duct")];
    assert!(matches!(Config::build(&args, false), Err(ConfigError::MissingFilePath)));
}

#[test]
fn empty_query_token_is_a_missing_query() {
    let args = vec![String::from("prog"), String::from(""), String::from("poem.txt")];
    assert!(matches!(Config::build(&args, false), Err(ConfigError::MissingQuery)));
}

#[test]
fn build_copies_query_and_file_path() {
    let args = vec![String::from("prog"), String::from("q"), String::from("poem.txt")];
    let config = Config::build(&args, false).unwrap();
    assert_eq!(config.query, "q");
    assert_eq!(config.file_path, "poem.txt");
    assert!(!config.ignore_case);
}

#[test]
fn override_forces_case_sensitive() {
    let args = vec![
        String::from("prog"),
        String::from("q"),
        String::from("path"),
        String::from("f"),
    ];
    let config = Config::build(&args, true).unwrap();
    assert!(!config.ignore_case);
}

#[test]
fn override_forces_case_insensitive() {
    let args = vec![
        String::from("prog"),
        String::from("q"),
        String::from("path"),
        String::from("true"),
    ];
    let config = Config::build(&args, false).unwrap();
    assert!(config.ignore_case);

    let args = vec![
        String::from("prog"),
        String::from("q"),
        String::from("path"),
        String::from("T"),
    ];
    let config = Config::build(&args, false).unwrap();
    assert!(config.ignore_case);
}

#[test]
fn unrecognized_override_defers_to_environment() {
    let args = vec![
        String::from("prog"),
        String::from("q"),
        String::from("path"),
        String::from("x"),
    ];
    let config = Config::build(&args, true).unwrap();
    assert!(config.ignore_case);
    let config = Config::build(&args, false).unwrap();
    assert!(!config.ignore_case);
}

#[test]
fn empty_override_defers_to_environment() {
    let args = vec![
        String::from("prog"),
        String::from("q"),
        String::from("path"),
        String::from(""),
    ];
    let config = Config::build(&args, true).unwrap();
    assert!(config.ignore_case);
}

#[test]
fn absent_override_uses_environment() {
    let args = vec![String::from("prog"), String::from("q"), String::from("path")];
    let config = Config::build(&args, true).unwrap();
    assert!(config.ignore_case);
}
