use minigrep::{run, search, search_case_insensitive, Config};

fn request(query: &str, case_sensitive: bool) -> Config {
    Config { query: query.to_string(), filename: "poem.txt".to_string(), case_sensitive }
}

#[test]
fn case_sensitive() {
    let query = "duct";
    let contents = "Rust:\nsafe, fast, productive.\nPick three.\nDuct tape.";

    assert_eq!(vec!["safe, fast, productive."], search(query, contents));
}

#[test]
fn case_insensitive() {
    let query = "rUsT";
    let contents = "\
        Rust:
        safe, fast, productive.
        Pick three.
        Trust me.";

    assert_eq!(vec!["Rust:", "Trust me."], search_case_insensitive(query, contents));
}

#[test]
fn case_insensitive_unindented() {
    let contents = "Rust:\nsafe, fast, productive.\nPick three.\nTrust me.";
    assert_eq!(vec!["Rust:", "Trust me."], search_case_insensitive("rUsT", contents));
}

#[test]
fn exact_search_keeps_indentation() {
    let contents = "\
        Rust:
        safe, fast, productive.
        Pick three.
        Duct tape.";
    assert_eq!(vec!["        safe, fast, productive."], search("duct", contents));
}

#[test]
fn exact_search_does_not_trim_but_folded_search_does() {
    let contents = "  alpha beta \t\n\tgamma\n beta\u{3000}";
    assert_eq!(vec!["  alpha beta \t", " beta\u{3000}"], search("beta", contents));
    assert_eq!(vec!["alpha beta", "beta"], search_case_insensitive("beta", contents));
}

#[test]
fn empty_query_returns_every_line() {
    let contents = "one\n\n  two  \r\nthree\n";
    assert_eq!(vec!["one", "", "  two  ", "three"], search("", contents));
    assert_eq!(vec!["one", "", "two", "three"], search_case_insensitive("", contents));
}

#[test]
fn empty_content_has_no_match() {
    assert_eq!(Vec::<&str>::new(), search("a", ""));
    assert_eq!(Vec::<&str>::new(), search("", ""));
    assert_eq!(Vec::<&str>::new(), search_case_insensitive("a", ""));
    assert_eq!(Vec::<&str>::new(), search_case_insensitive("", ""));
}

#[test]
fn query_longer_than_every_line_has_no_match() {
    let contents = "ab\ncd\n";
    assert_eq!(Vec::<&str>::new(), search("abcd", contents));
    assert_eq!(Vec::<&str>::new(), search_case_insensitive("abcd", contents));
}

#[test]
fn no_match_is_an_empty_result() {
    assert_eq!(Vec::<&str>::new(), search("zebra", "Rust:\nsafe, fast, productive."));
}

#[test]
fn a_query_never_matches_across_a_line_break() {
    assert_eq!(Vec::<&str>::new(), search("ab", "a\nb"));
    assert_eq!(Vec::<&str>::new(), search("a\nb", "a\nb"));
}

#[test]
fn matches_keep_file_order_and_repeat() {
    let contents = "b1\nx\nb2\nb1\ny\nb3";
    assert_eq!(vec!["b1", "b2", "b1", "b3"], search("b", contents));
}

#[test]
fn a_line_that_matches_twice_is_returned_once() {
    assert_eq!(vec!["abab"], search("ab", "abab\ncd"));
    assert_eq!(vec!["abAB"], search_case_insensitive("AB", "abAB\ncd"));
}

#[test]
fn returned_lines_hold_the_query() {
    let query = "an";
    let contents = "banana\ncherry\nmango\nANT\nplantain\n";
    let found = search(query, contents);
    let all: Vec<&str> = contents.lines().collect();
    let mut from = 0;
    for line in &found {
        assert!(line.contains(query));
        let at = all[from..].iter().position(|l| l == line);
        assert!(at.is_some());
        from += at.unwrap() + 1;
    }
    assert_eq!(vec!["banana", "mango", "plantain"], found);
}

#[test]
fn folded_matches_are_trimmed_lines_that_hold_the_folded_query() {
    let query = "ÄN";
    let contents = "  Bänd \nband\n\tÄNDERN\r\n än";
    let found = search_case_insensitive(query, contents);
    assert_eq!(vec!["Bänd", "ÄNDERN", "än"], found);
    for line in &found {
        assert!(line.to_lowercase().contains(&query.to_lowercase()));
        assert!(contents.lines().any(|l| l.trim() == *line));
    }
}

#[test]
fn folded_search_matches_upper_case_text() {
    assert_eq!(vec!["RUST"], search_case_insensitive("rust", "RUST\nruby"));
    assert_eq!(Vec::<&str>::new(), search("rust", "RUST\nruby"));
}

#[test]
fn folded_search_folds_the_query_too() {
    assert_eq!(vec!["rust"], search_case_insensitive("RUST", "rust\nruby"));
}

#[test]
fn folding_may_change_the_length_of_a_line() {
    // The capital I with a dot becomes two characters in lower case.
    assert_eq!(vec!["İstanbul"], search_case_insensitive("i\u{307}st", " İstanbul \nIstanbul"));
}

#[test]
fn searching_again_gives_the_same() {
    let contents = "Rust:\n  trust \nDuct tape.\nrust";
    let again = String::from(contents);
    assert_eq!(search("ust", contents), search("ust", contents));
    assert_eq!(search("ust", contents), search("ust", &again));
    assert_eq!(search_case_insensitive("RUST", contents), search_case_insensitive("RUST", &again));
    assert_eq!(vec!["Rust:", "trust", "rust"], search_case_insensitive("RUST", contents));
}

#[test]
fn matches_are_slices_of_the_content() {
    let contents = String::from("héllo wörld\n  second wörld  \nthird");
    let lo = contents.as_ptr() as usize;
    let hi = lo + contents.len();
    for line in search("wörld", &contents).into_iter().chain(search_case_insensitive("WÖRLD", &contents)) {
        let at = line.as_ptr() as usize;
        assert!(lo <= at && at + line.len() <= hi);
    }
}

#[test]
fn line_terminators_are_left_out() {
    assert_eq!(vec!["a", "b", "c"], search("", "a\r\nb\nc\r\n"));
    assert_eq!(vec!["a\rb", "c\r"], search("", "a\rb\nc\r"));
    assert_eq!(vec!["", "", "x"], search("", "\n\r\nx\n"));
    assert_eq!(vec!["\r"], search("\r", "\r\r\nabc"));
}

#[test]
fn run_picks_the_search_by_case_sensitivity() {
    let contents = "Rust:\n  Trust me.\nrusty\n";
    assert_eq!(vec!["  Trust me.", "rusty"], run(&request("rust", true), contents));
    assert_eq!(vec!["Rust:", "Trust me.", "rusty"], run(&request("rust", false), contents));
    assert_eq!(vec!["  Trust me."], run(&request("Trust", true), contents));
}
