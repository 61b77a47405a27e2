use quicksort::grep::{line_matches, search_case_insensitive, search_case_sensitive, Config, ConfigError};

#[test]
fn case_sensitive() {
    let query = "duct";
    let contents = "\
Rust:
safe, fast, productive.
Pick three.";

    assert_eq!(
        vec!["safe, fast, productive."],
        search_case_sensitive(query, contents)
    );
}

#[test]
fn case_insensitive() {
    let query = "rUsT";
    let contents = "\
Rust:
safe, fast, productive.
Pick three.
Trust me.";

    assert_eq!(
        vec!["Rust:", "Trust me."],
        search_case_insensitive(query, contents)
    );
}

#[test]
fn case_sensitive_several_lines() {
    let contents = "\
Rust:

What a wonderful day shiny day!
Pick three.";
    assert_eq!(
        vec!["What a wonderful day shiny day!", "Pick three."],
        search_case_sensitive("r", contents)
    );
}

#[test]
fn case_sensitive_skips_other_case() {
    assert!(search_case_sensitive("RUST", "Rust:\nTrust me.").is_empty());
}

#[test]
fn line_matches_substring() {
    assert!(line_matches("duct", "productive"));
    assert!(!line_matches("Duct", "productive"));
    assert!(line_matches("", "anything"));
}

#[test]
fn config_from_arguments() {
    let args: Vec<String> = vec!["prog".to_string(), "needle".to_string(), "poem.txt".to_string()];
    let cfg = Config::new(&args, false).ok().unwrap();
    assert_eq!(cfg.query, "needle");
    assert_eq!(cfg.filename, "poem.txt");
    assert!(cfg.case_sensitive);
    let cfg = Config::new(&args, true).ok().unwrap();
    assert!(!cfg.case_sensitive);
}

#[test]
fn config_missing_arguments() {
    let none: Vec<String> = vec!["prog".to_string()];
    let err = Config::new(&none, false).err().unwrap();
    assert_eq!(err, ConfigError::MissingQuery);
    assert_eq!(err.message(), "Didn't get a query string");
    let one: Vec<String> = vec!["prog".to_string(), "needle".to_string()];
    let err = Config::new(&one, false).err().unwrap();
    assert_eq!(err, ConfigError::MissingFilename);
    assert_eq!(err.message(), "Didn't get a file name");
}
