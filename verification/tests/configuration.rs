use minigrep::run;
use minigrep::Config;

fn strings(items: &[&str]) -> Vec<String> {
    items.iter().map(|item| item.to_string()).collect()
}

#[test]
fn two_arguments_make_a_case_sensitive_configuration() {
    let config = Config::new(&strings(&["query", "file"]), false).unwrap();
    assert_eq!(config.query, "query");
    assert_eq!(config.file_path, "file");
    assert!(config.case_sensitive);
}

#[test]
fn the_toggle_makes_the_search_ignore_case() {
    let config = Config::new(&strings(&["query", "file"]), true).unwrap();
    assert_eq!(config.query, "query");
    assert_eq!(config.file_path, "file");
    assert!(!config.case_sensitive);
}

#[test]
fn no_argument_is_a_missing_query() {
    assert_eq!(Config::new(&[], false).unwrap_err(), "Didn't get a query string");
    assert_eq!(Config::new(&[], true).unwrap_err(), "Didn't get a query string");
}

#[test]
fn one_argument_is_a_missing_file() {
    assert_eq!(Config::new(&strings(&["query"]), false).unwrap_err(), "Didn't get a file name");
    assert_eq!(Config::new(&strings(&["query"]), true).unwrap_err(), "Didn't get a file name");
}

#[test]
fn further_arguments_are_ignored() {
    let config = Config::new(&strings(&["needle", "poem.txt", "more", "and more"]), false).unwrap();
    assert_eq!(config.query, "needle");
    assert_eq!(config.file_path, "poem.txt");
    assert!(config.case_sensitive);
}

#[test]
fn arguments_are_taken_as_they_are() {
    let config = Config::new(&strings(&["", ""]), false).unwrap();
    assert_eq!(config.query, "");
    assert_eq!(config.file_path, "");
}

#[test]
fn run_follows_the_configuration() {
    let content = "Rust:\nsafe, fast, productive.\nPick three.\nTrust me.";
    let exact = Config::new(&strings(&["rust", "poem.txt"]), false).unwrap();
    assert_eq!(run(&exact, content), vec!["Trust me."]);
    let loose = Config::new(&strings(&["rust", "poem.txt"]), true).unwrap();
    assert_eq!(run(&loose, content), vec!["Rust:", "Trust me."]);
}

#[test]
fn run_with_an_empty_query_gives_every_line() {
    let content = "a\nB\n";
    let exact = Config::new(&strings(&["", "poem.txt"]), false).unwrap();
    assert_eq!(run(&exact, content), vec!["a", "B"]);
    let loose = Config::new(&strings(&["", "poem.txt"]), true).unwrap();
    assert_eq!(run(&loose, content), vec!["a", "B"]);
}
