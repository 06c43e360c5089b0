use minigrep::{contains, lines, search, search_case_insensitive};

const POEM: &str = "Rust:\nsafe, fast, productive.\nPick three.";

#[test]
fn case_sensitive() {
    let contents = "Rust:\nsafe, fast, productive.\nPick three.\nDuct tape.";
    assert_eq!(vec!["safe, fast, productive."], search("duct", contents));
}

#[test]
fn case_insensitive() {
    let contents = "Rust:\nsafe, fast, productive.\nPick three.\nTrust me.";
    assert_eq!(vec!["Rust:", "Trust me."], search_case_insensitive("rUsT", contents));
}

#[test]
fn exact_search_respects_case() {
    assert_eq!(Vec::<&str>::new(), search("rust", POEM));
    assert_eq!(vec!["Rust:"], search("Rust", POEM));
}

#[test]
fn folding_lowers_both_sides() {
    assert_eq!(vec!["RUST"], search_case_insensitive("rust", "RUST"));
    assert_eq!(vec!["rust"], search_case_insensitive("RUST", "rust"));
    assert_eq!(vec!["ÄPFEL und Birnen"], search_case_insensitive("äpfel", "ÄPFEL und Birnen\nnichts"));
}

#[test]
fn folded_search_returns_lines_as_written() {
    let found = search_case_insensitive("pick", POEM);
    assert_eq!(vec!["Pick three."], found);
}

#[test]
fn every_result_contains_the_query_and_nothing_is_missed() {
    let contents = "one fish\ntwo fish\nred bird\nblue fish\n\nfish";
    let found = search("fish", contents);
    assert_eq!(vec!["one fish", "two fish", "blue fish", "fish"], found);
    for line in &found {
        assert!(line.contains("fish"));
    }
    let expected: Vec<&str> = contents.lines().filter(|line| line.contains("fish")).collect();
    assert_eq!(expected, found);
}

#[test]
fn a_line_with_several_occurrences_comes_once() {
    assert_eq!(vec!["abab abab"], search("ab", "abab abab\ncd"));
}

#[test]
fn equal_lines_come_once_per_position() {
    assert_eq!(vec!["same", "same"], search("same", "same\nother\nsame"));
}

#[test]
fn folded_search_agrees_with_exact_search_of_folded_text() {
    let contents = "Rust:\nsafe, fast, productive.\nPick three.\nTrust me.\nRUSTY nail";
    let query = "rUsT";
    let all: Vec<&str> = contents.lines().collect();
    let folded_contents = contents.to_lowercase();
    let folded_all: Vec<&str> = folded_contents.lines().collect();
    let by_exact = search(&query.to_lowercase(), &folded_contents);
    let mut expected: Vec<&str> = Vec::new();
    let mut next = 0;
    for (position, folded_line) in folded_all.iter().enumerate() {
        if next < by_exact.len() && by_exact[next] == *folded_line {
            expected.push(all[position]);
            next += 1;
        }
    }
    assert_eq!(next, by_exact.len());
    assert_eq!(expected, search_case_insensitive(query, contents));
    assert_eq!(vec!["Rust:", "Trust me.", "RUSTY nail"], expected);
}

#[test]
fn empty_query_returns_every_line() {
    assert_eq!(vec!["Rust:", "safe, fast, productive.", "Pick three."], search("", POEM));
    assert_eq!(vec!["", "a", ""], search("", "\na\n\n"));
}

#[test]
fn empty_contents_return_nothing() {
    assert_eq!(Vec::<&str>::new(), search("duct", ""));
    assert_eq!(Vec::<&str>::new(), search("", ""));
    assert_eq!(Vec::<&str>::new(), search_case_insensitive("duct", ""));
}

#[test]
fn query_longer_than_every_line() {
    assert_eq!(Vec::<&str>::new(), search("a long query", "short\nlines"));
}

#[test]
fn query_does_not_match_across_lines() {
    assert_eq!(Vec::<&str>::new(), search("a\nb", "a\nb"));
    assert_eq!(Vec::<&str>::new(), search("ab", "a\nb"));
}

#[test]
fn lines_end_at_line_feeds() {
    assert_eq!(vec!["a", "b"], lines("a\nb"));
    assert_eq!(vec!["a", "b"], lines("a\nb\n"));
    assert_eq!(vec!["a", "", "b"], lines("a\n\nb"));
    assert_eq!(vec![""], lines("\n"));
    assert_eq!(Vec::<&str>::new(), lines(""));
    assert_eq!(vec!["only"], lines("only"));
}

#[test]
fn lines_drop_a_carriage_return_before_a_line_feed() {
    assert_eq!(vec!["a", "b"], lines("a\r\nb\r\n"));
    assert_eq!(vec!["a\r"], lines("a\r\r\n"));
    assert_eq!(vec!["a\rb"], lines("a\rb"));
    assert_eq!(vec!["a", "b\r"], lines("a\nb\r"));
    assert_eq!(vec![""], lines("\r\n"));
    assert_eq!(vec!["\r"], lines("\r"));
}

#[test]
fn lines_agree_with_the_standard_library() {
    let samples = [
        "",
        "\n",
        "\r",
        "\r\n",
        "\n\r",
        "a",
        "a\n",
        "a\r\n\r\nb",
        "grüße\r\nмир\n日本語\n",
        "tab\there\n\n\nend\r",
        "\r\r\n\n\r",
    ];
    for sample in samples {
        let expected: Vec<&str> = sample.lines().collect();
        assert_eq!(expected, lines(sample));
    }
}

#[test]
fn lines_are_slices_of_the_contents() {
    let contents = String::from("first\nsecond");
    let found = lines(&contents);
    let start = contents.as_ptr() as usize;
    assert_eq!(found[0].as_ptr() as usize, start);
    assert_eq!(found[1].as_ptr() as usize, start + 6);
}

#[test]
fn contains_finds_a_text_anywhere() {
    assert!(contains("safe, fast, productive.", "duct"));
    assert!(contains("abc", "abc"));
    assert!(contains("abc", "a"));
    assert!(contains("abc", "c"));
    assert!(contains("abc", ""));
    assert!(contains("", ""));
    assert!(!contains("", "a"));
    assert!(!contains("abc", "abcd"));
    assert!(!contains("abc", "ac"));
    assert!(!contains("aab", "abb"));
    assert!(contains("aaab", "aab"));
}

#[test]
fn contains_works_on_text_beyond_ascii() {
    assert!(contains("grüße aus köln", "üße"));
    assert!(contains("日本語のテキスト", "テキ"));
    assert!(!contains("grüße", "u"));
    assert!(!contains("é", "e"));
}

#[test]
fn contains_agrees_with_the_standard_library() {
    let texts = ["", "a", "ab", "ba", "aba", "abab", "grüße", "üß", "ß", "日本", "本"];
    for hay in texts {
        for needle in texts {
            assert_eq!(hay.contains(needle), contains(hay, needle));
        }
    }
}
