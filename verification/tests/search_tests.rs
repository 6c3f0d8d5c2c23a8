use minigrep::contains_str;
use minigrep::search;
use minigrep::search_case_insensitive;
use minigrep::split_lines;

#[test]
fn case_sensitive() {
    let query = "duct";
    let contents = "\
Rust:
safe, fast, productive.
Pick three.
Duct tape.";

    assert_eq!(vec!["safe, fast, productive."], search(query, contents));
}

#[test]
fn case_insensitive() {
    let query = "rUsT";
    let contents = "\
Rust:
safe, fast, productive.
Pick three.
Trust me.";

    assert_eq!(
        vec!["Rust:", "Trust me."],
        search_case_insensitive(query, contents)
    );
}

#[test]
fn empty_query_keeps_every_line() {
    let contents = "one\ntwo\nthree";
    assert_eq!(vec!["one", "two", "three"], search("", contents));
    assert_eq!(vec!["one", "two", "three"], search_case_insensitive("", contents));
}

#[test]
fn search_is_repeatable() {
    let contents = "Rust:\nTrust me.";
    assert_eq!(search("rust", contents), search("rust", contents));
    assert_eq!(
        search_case_insensitive("rUsT", contents),
        search_case_insensitive("rUsT", contents)
    );
}

#[test]
fn empty_contents_has_no_lines() {
    assert_eq!(Vec::<&str>::new(), search("x", ""));
    assert_eq!(Vec::<&str>::new(), search("", ""));
    assert_eq!(Vec::<&str>::new(), search_case_insensitive("", ""));
}

#[test]
fn trailing_newline_adds_no_line() {
    assert_eq!(vec!["a", "b"], split_lines("a\nb\n"));
}

#[test]
fn lone_newline_is_one_empty_line() {
    assert_eq!(vec![""], split_lines("\n"));
}

#[test]
fn no_newline_is_one_line() {
    assert_eq!(vec!["abc"], split_lines("abc"));
}

#[test]
fn blank_lines_are_kept_in_order() {
    assert_eq!(vec!["a", "", "b"], split_lines("a\n\nb"));
}

#[test]
fn contains_str_finds_substrings() {
    assert!(contains_str("productive", "duct"));
    assert!(!contains_str("Duct", "duct"));
    assert!(contains_str("anything", ""));
    assert!(!contains_str("", "a"));
    assert!(contains_str("aaab", "aab"));
}

#[test]
fn folding_applies_to_both_sides() {
    // Matches only because both the query and the line are folded.
    assert_eq!(vec!["Rust:"], search_case_insensitive("rUsT", "Rust:"));
    // The returned line keeps its original, unfolded text.
    assert_eq!(vec!["MiXeD"], search_case_insensitive("mixed", "MiXeD"));
}
