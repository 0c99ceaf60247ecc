use workbook::minigrep::{search, search_case_insensitive, run_search, Config};

#[test]
fn case_sensitive() {
    let query = "duct";
    let contents = "\
Rust:
safe, fast, productive.
Pick three.
Duct tape.";

    assert_eq!(
        vec!["safe, fast, productive.".to_string()],
        search(query, contents)
    );
}

#[test]
fn case_insensitive() {
    let query = "rUst";
    let contents = "\
Rust:
Safe, fast, productive.
Pick three.
Trust me.";

    assert_eq!(
        vec!["Rust:".to_string(), "Trust me.".to_string()],
        search_case_insensitive(query, contents)
    );
}

fn args(list: &[&str]) -> Vec<String> {
    list.iter().map(|s| s.to_string()).collect()
}

#[test]
fn build_rejects_short_argument_lists() {
    let r = Config::build(&args(&["minigrep"]), None);
    assert_eq!(r.err(), Some("not enough arguments"));
    let r = Config::build(&args(&["minigrep", "query"]), None);
    assert_eq!(r.err(), Some("not enough arguments"));
}

#[test]
fn build_rejects_bad_environment_value() {
    let r = Config::build(&args(&["minigrep", "q", "file.txt"]), Some("yes"));
    assert_eq!(r.err(), Some("IGNORE_CASE must be a boolean"));
}

#[test]
fn build_rejects_bad_third_argument() {
    let r = Config::build(&args(&["minigrep", "q", "file.txt", "maybe"]), None);
    assert_eq!(r.err(), Some("third argument must be a boolean value"));
}

#[test]
fn build_reads_query_and_path() {
    let c = Config::build(&args(&["minigrep", "needle", "hay.txt"]), None).unwrap();
    assert_eq!(c.query, "needle".to_string());
    assert_eq!(c.file_path, "hay.txt".to_string());
    assert!(!c.ignore_case);
}

#[test]
fn build_env_true_enables_ignore_case() {
    let c = Config::build(&args(&["minigrep", "q", "f"]), Some("true")).unwrap();
    assert!(c.ignore_case);
}

#[test]
fn build_true_argument_always_wins() {
    let c = Config::build(&args(&["minigrep", "q", "f", "true"]), None).unwrap();
    assert!(c.ignore_case);
    let c = Config::build(&args(&["minigrep", "q", "f", "true"]), Some("false")).unwrap();
    assert!(c.ignore_case);
    let c = Config::build(&args(&["minigrep", "q", "f", "true"]), Some("true")).unwrap();
    assert!(c.ignore_case);
}

#[test]
fn build_false_argument_never_disables_env() {
    let c = Config::build(&args(&["minigrep", "q", "f", "false"]), Some("true")).unwrap();
    assert!(c.ignore_case);
    let c = Config::build(&args(&["minigrep", "q", "f", "false"]), None).unwrap();
    assert!(!c.ignore_case);
}

#[test]
fn run_search_selects_by_flag() {
    let contents = "Rust:\nTrust me.";
    let sensitive = Config::build(&args(&["minigrep", "rUst", "f"]), None).unwrap();
    assert!(run_search(&sensitive, contents).is_empty());
    let insensitive = Config::build(&args(&["minigrep", "rUst", "f", "true"]), None).unwrap();
    assert_eq!(
        run_search(&insensitive, contents),
        vec!["Rust:".to_string(), "Trust me.".to_string()]
    );
}

#[test]
fn search_finds_nothing_in_empty_contents() {
    assert!(search("a", "").is_empty());
    assert!(search_case_insensitive("a", "").is_empty());
}
