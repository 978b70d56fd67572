use workpool::search::{run_search, search, search_case_insensitive, Config};

#[test]
fn one_result() {
    let query = "duct";
    let contents = "\
Rust:
safe, fast, productive.
Pick three.
Duct tape.";

    assert_eq!(vec!["safe, fast, productive."], search(query, contents));
}

#[test]
fn case_insensitive() {
    let query = "rUsT";
    let contents = "\
Rust:
safe, fast, productive.
Pick three.
Trust me.";

    assert_eq!(
        vec!["Rust:", "Trust me."],
        search_case_insensitive(query, contents)
    );
}

#[test]
fn empty_contents_has_no_lines() {
    assert_eq!(search("x", ""), Vec::<&str>::new());
    assert_eq!(search_case_insensitive("x", ""), Vec::<&str>::new());
}

#[test]
fn empty_query_matches_every_line() {
    assert_eq!(search("", "a\nb"), vec!["a", "b"]);
}

#[test]
fn trailing_newline_adds_no_line() {
    assert_eq!(search("a", "a\n"), vec!["a"]);
    assert_eq!(search("", "a\n\n"), vec!["a", ""]);
}

#[test]
fn carriage_return_is_dropped_with_the_line_feed() {
    assert_eq!(search("tape", "Duct tape.\r\nduct"), vec!["Duct tape."]);
}

#[test]
fn case_sensitive_search_respects_case() {
    assert_eq!(search("rUsT", "Rust:\nTrust me."), Vec::<&str>::new());
}

#[test]
fn run_search_picks_the_variant() {
    let sensitive = Config {
        query: String::from("rust"),
        filename: String::from("poem.txt"),
        case_sensitive: true,
    };
    let insensitive = Config {
        query: String::from("rust"),
        filename: String::from("poem.txt"),
        case_sensitive: false,
    };
    let contents = "Rust:\nrustic";
    assert_eq!(run_search(&sensitive, contents), vec!["rustic"]);
    assert_eq!(run_search(&insensitive, contents), vec!["Rust:", "rustic"]);
}
