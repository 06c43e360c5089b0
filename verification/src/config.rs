//! Resolving a command line into the configuration of one search.

use vstd::prelude::*;
use crate::contains::same_text;
use crate::lines::texts;
use crate::search::{search, search_case_insensitive, selected_lines};

verus! {

/// What one run searches for, where, and how.
#[derive(Debug, PartialEq, Eq)]
pub struct Config {
    /// The text to look for.
    pub query: String,
    /// The path of the file to search.
    pub file_path: String,
    /// Whether letter case is ignored.
    pub ignore_case: bool,
}

/// The content of a `Config`, as contracts see it.
pub struct ConfigModel {
    /// The text to look for.
    pub query: Seq<char>,
    /// The path of the file to search.
    pub file_path: Seq<char>,
    /// Whether letter case is ignored.
    pub ignore_case: bool,
}

impl ConfigModel {
    /// The lines of `contents` that a search with this configuration
    /// returns.
    pub open spec fn lines_for(self, contents: Seq<char>) -> Seq<Seq<char>> {
        selected_lines(self.query, self.ignore_case, contents)
    }
}

impl View for Config {
    type V = ConfigModel;

    open spec fn view(&self) -> ConfigModel {
        ConfigModel { query: self.query@, file_path: self.file_path@, ignore_case: self.ignore_case }
    }
}

/// Why a command line could not be resolved.
#[derive(Debug, Clone, Copy, PartialEq, Eq, Structural)]
pub enum ConfigError {
    /// The command line names no query, or no file.
    InsufficientArguments,
}

/// The text of the flag that asks for a search ignoring case.
pub open spec fn case_flag() -> Seq<char> {
    seq!['-', 'C']
}

/// The texts of the arguments of a command line.
pub open spec fn argument_texts(args: Seq<String>) -> Seq<Seq<char>> {
    args.map_values(|arg: String| arg@)
}

/// The configuration that a command line stands for.
///
/// `args[0]` is the program's name and is not looked at. If the argument
/// after it is the case flag, the next two are the query and the file path,
/// and case is ignored. Otherwise the two arguments after the program's
/// name are the query and the file path, and case is ignored if
/// `ignore_case_env` says so. Arguments after the file path are not looked
/// at. A command line too short for its form stands for no configuration.
pub open spec fn resolve(args: Seq<Seq<char>>, ignore_case_env: bool) -> Result<
    ConfigModel,
    ConfigError,
> {
    if args.len() >= 3 && args[1] != case_flag() {
        Ok(ConfigModel { query: args[1], file_path: args[2], ignore_case: ignore_case_env })
    } else if args.len() >= 4 && args[1] == case_flag() {
        Ok(ConfigModel { query: args[2], file_path: args[3], ignore_case: true })
    } else {
        Err(ConfigError::InsufficientArguments)
    }
}

impl ConfigError {
    /// The message for the user: what is wrong, and the two forms of a
    /// command line.
    pub fn message(&self) -> (text: &'static str)
        ensures
            text@ == "Not enough arguments: usage is <query> <file_path> or -C <query> <file_path>"@,
    {
        "Not enough arguments: usage is <query> <file_path> or -C <query> <file_path>"
    }
}

impl Config {
    /// Resolves the command line `args`, whose first entry is the program's
    /// name. `ignore_case_env` tells whether the variable `IGNORE_CASE` is
    /// set in the process environment, with whatever value; the caller reads
    /// it. The flag `-C` asks for a search ignoring case too, and either is
    /// enough. The query and the file path are copied out of `args`.
    pub fn build(args: &[String], ignore_case_env: bool) -> (outcome: Result<Config, ConfigError>)
        ensures
            resolve(argument_texts(args@), ignore_case_env) == match outcome {
                Ok(config) => Ok(config@),
                Err(error) => Err(error),
            },
    {
        if args.len() < 3 {
            return Err(ConfigError::InsufficientArguments);
        }
        let mut offset: usize = 1;
        let mut ignore_case = ignore_case_env;
        proof {
            reveal_strlit("-C");
            assert("-C"@ =~= case_flag());
        }
        if same_text(args[1].as_str(), "-C") {
            ignore_case = true;
            offset = 2;
        }
        if args.len() - offset < 2 {
            return Err(ConfigError::InsufficientArguments);
        }
        let query = args[offset].clone();
        let file_path = args[offset + 1].clone();
        Ok(Config { query, file_path, ignore_case })
    }

    /// The lines of `contents` that this configuration selects: those that
    /// hold the query, compared letter for letter or ignoring case.
    pub fn search<'a>(&self, contents: &'a str) -> (results: Vec<&'a str>)
        ensures
            texts(results@) == self@.lines_for(contents@),
    {
        if self.ignore_case {
            search_case_insensitive(self.query.as_str(), contents)
        } else {
            search(self.query.as_str(), contents)
        }
    }
}

/// Asking for a search ignoring case through the environment gives the
/// configuration that the flag gives, and so the same lines for the same
/// file, whatever the environment says when the flag is there. The query must not
/// itself be the text of the flag: a command line without the flag cannot
/// name such a query.
pub proof fn lemma_environment_like_flag(
    program: Seq<char>,
    query: Seq<char>,
    file_path: Seq<char>,
    ignore_case_env: bool,
    contents: Seq<char>,
)
    requires
        query != case_flag(),
    ensures
        resolve(seq![program, query, file_path], true) is Ok,
        resolve(seq![program, query, file_path], true) == resolve(
            seq![program, case_flag(), query, file_path],
            ignore_case_env,
        ),
        resolve(seq![program, query, file_path], true)->Ok_0.lines_for(contents) == resolve(
            seq![program, case_flag(), query, file_path],
            ignore_case_env,
        )->Ok_0.lines_for(contents),
{
}

} // verus!
