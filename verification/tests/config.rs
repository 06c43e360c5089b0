use minigrep::contains::same_text;
use minigrep::lines::split_first_line;
use minigrep::{Config, ConfigError};

fn command_line(words: &[&str]) -> Vec<String> {
    words.iter().map(|word| word.to_string()).collect()
}

const POEM: &str = "Rust:\nsafe, fast, productive.\nPick three.";

#[test]
fn build_without_arguments_fails() {
    let outcome = Config::build(&command_line(&["prog"]), false);
    assert_eq!(outcome, Err(ConfigError::InsufficientArguments));
}

#[test]
fn build_without_a_file_fails() {
    let outcome = Config::build(&command_line(&["prog", "foo"]), false);
    assert_eq!(outcome, Err(ConfigError::InsufficientArguments));
}

#[test]
fn build_of_an_empty_command_line_fails() {
    assert_eq!(Config::build(&[], true), Err(ConfigError::InsufficientArguments));
}

#[test]
fn build_takes_query_and_file() {
    let config = Config::build(&command_line(&["prog", "foo", "bar.txt"]), false).unwrap();
    assert_eq!(config.query, "foo");
    assert_eq!(config.file_path, "bar.txt");
    assert!(!config.ignore_case);
}

#[test]
fn build_with_the_flag_ignores_case() {
    let config = Config::build(&command_line(&["prog", "-C", "foo", "bar.txt"]), false).unwrap();
    assert_eq!(
        config,
        Config { query: "foo".to_string(), file_path: "bar.txt".to_string(), ignore_case: true }
    );
}

#[test]
fn build_with_the_flag_needs_two_more_arguments() {
    let args = command_line(&["prog", "-C", "foo"]);
    assert_eq!(Config::build(&args, false), Err(ConfigError::InsufficientArguments));
    assert_eq!(Config::build(&args, true), Err(ConfigError::InsufficientArguments));
    let args = command_line(&["prog", "-C"]);
    assert_eq!(Config::build(&args, true), Err(ConfigError::InsufficientArguments));
}

#[test]
fn build_with_the_environment_ignores_case() {
    let config = Config::build(&command_line(&["prog", "foo", "bar.txt"]), true).unwrap();
    assert_eq!(config.query, "foo");
    assert_eq!(config.file_path, "bar.txt");
    assert!(config.ignore_case);
}

#[test]
fn flag_and_environment_together_ignore_case() {
    let config = Config::build(&command_line(&["prog", "-C", "foo", "bar.txt"]), true).unwrap();
    assert!(config.ignore_case);
}

#[test]
fn build_reads_the_flag_only_in_first_place() {
    let config = Config::build(&command_line(&["prog", "foo", "-C", "bar.txt"]), false).unwrap();
    assert_eq!(config.query, "foo");
    assert_eq!(config.file_path, "-C");
    assert!(!config.ignore_case);
    let config = Config::build(&command_line(&["prog", "-c", "bar.txt"]), false).unwrap();
    assert_eq!(config.query, "-c");
    assert!(!config.ignore_case);
}

#[test]
fn build_ignores_further_arguments() {
    let config = Config::build(&command_line(&["prog", "foo", "bar.txt", "more"]), false).unwrap();
    assert_eq!(config.query, "foo");
    assert_eq!(config.file_path, "bar.txt");
}

#[test]
fn build_copies_its_arguments() {
    let config = {
        let args = command_line(&["prog", "foo", "bar.txt"]);
        Config::build(&args, false).unwrap()
    };
    assert_eq!(config.query, "foo");
}

#[test]
fn message_names_both_forms() {
    assert_eq!(
        ConfigError::InsufficientArguments.message(),
        "Not enough arguments: usage is <query> <file_path> or -C <query> <file_path>"
    );
}

#[test]
fn run_letter_for_letter() {
    let config = Config::build(&command_line(&["prog", "duct", "poem.txt"]), false).unwrap();
    assert_eq!(vec!["safe, fast, productive."], config.search(POEM));
}

#[test]
fn run_ignoring_case() {
    let config = Config::build(&command_line(&["prog", "-C", "rUsT", "poem.txt"]), false).unwrap();
    assert_eq!(vec!["Rust:"], config.search(POEM));
}

#[test]
fn environment_gives_what_the_flag_gives() {
    let by_environment = Config::build(&command_line(&["prog", "rUsT", "poem.txt"]), true).unwrap();
    let by_flag = Config::build(&command_line(&["prog", "-C", "rUsT", "poem.txt"]), false).unwrap();
    assert_eq!(by_environment, by_flag);
    assert_eq!(by_environment.search(POEM), by_flag.search(POEM));
    assert_eq!(vec!["Rust:"], by_environment.search(POEM));
}

#[test]
fn a_query_like_the_flag_needs_the_flag() {
    let args = command_line(&["prog", "-C", "poem.txt"]);
    assert_eq!(Config::build(&args, true), Err(ConfigError::InsufficientArguments));
    let config = Config::build(&command_line(&["prog", "-C", "-C", "poem.txt"]), false).unwrap();
    assert_eq!(config.query, "-C");
    assert!(config.ignore_case);
}

#[test]
fn same_text_compares_whole_strings() {
    assert!(same_text("-C", "-C"));
    assert!(same_text("", ""));
    assert!(!same_text("-C", "-c"));
    assert!(!same_text("-C", "-Cx"));
    assert!(!same_text("x-C", "-C"));
    assert!(!same_text("", "-C"));
    assert!(same_text("grüße", "grüße"));
}

#[test]
fn split_first_line_cuts_at_the_terminator() {
    assert_eq!(None, split_first_line(""));
    assert_eq!(Some(("a", "b\nc")), split_first_line("a\r\nb\nc"));
    assert_eq!(Some(("a", "")), split_first_line("a\n"));
    assert_eq!(Some(("a", "")), split_first_line("a"));
    assert_eq!(Some(("", "\n")), split_first_line("\n\n"));
    assert_eq!(Some(("a\r", "")), split_first_line("a\r"));
}
