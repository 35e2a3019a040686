//! Resolving the invocation into a configuration.

use vstd::prelude::*;
use crate::strings::same_text;
use crate::text::strings_of;

verus! {

/// Why no configuration could be built.
#[derive(Debug, Clone, Copy, PartialEq, Eq, Structural)]
pub enum ConfigError {
    /// The arguments hold no query.
    MissingQuery,
    /// The query asks for a search in a file, and the arguments name none.
    MissingFilePath,
}

/// What to search for, where, and how.
#[derive(Debug, PartialEq, Eq)]
pub struct Config {
    /// The text to look for.
    pub query: String,
    /// The file to search; empty where the invocation needs none.
    pub file_path: String,
    /// Whether the search ignores case.
    pub ignore_case: bool,
}

/// A configuration as plain values.
pub struct ConfigView {
    pub query: Seq<char>,
    pub file_path: Seq<char>,
    pub ignore_case: bool,
}

impl View for Config {
    type V = ConfigView;

    open spec fn view(&self) -> ConfigView {
        ConfigView { query: self.query@, file_path: self.file_path@, ignore_case: self.ignore_case }
    }
}

impl Clone for Config {
    fn clone(&self) -> (copy: Config)
        ensures
            copy@ == self@,
    {
        Config {
            query: self.query.clone(),
            file_path: self.file_path.clone(),
            ignore_case: self.ignore_case,
        }
    }
}

/// The query that stands for an invocation without a file.
pub open spec fn help_word() -> Seq<char> {
    seq!['h', 'e', 'l', 'p']
}

/// Whether the value of the case flag switches case-insensitive search on:
/// only `1` and `true` do.
pub open spec fn flag_enables(value: Seq<char>) -> bool {
    value == seq!['1'] || value == seq!['t', 'r', 'u', 'e']
}

/// Whether the case flag, set or not, asks for a case-insensitive search.
pub open spec fn ignores_case(flag: Option<Seq<char>>) -> bool {
    match flag {
        Some(value) => flag_enables(value),
        None => false,
    }
}

/// The query of an invocation: its second argument, the first being the
/// program's own name.
pub open spec fn query_of(args: Seq<Seq<char>>) -> Result<Seq<char>, ConfigError> {
    if args.len() < 2 {
        Err(ConfigError::MissingQuery)
    } else {
        Ok(args[1])
    }
}

/// The configuration that the arguments and the case flag resolve to.
///
/// The first argument is passed over. The second is the query. Unless the
/// query is `help`, the third is the file path. A missing query is reported
/// before a missing path, and the case flag is looked at only when both are
/// in order.
pub open spec fn resolve(
    args: Seq<Seq<char>>,
    flag: Option<Seq<char>>,
) -> Result<ConfigView, ConfigError> {
    if args.len() < 2 {
        Err(ConfigError::MissingQuery)
    } else if args[1] == help_word() {
        Ok(
            ConfigView {
                query: args[1],
                file_path: Seq::empty(),
                ignore_case: ignores_case(flag),
            },
        )
    } else if args.len() < 3 {
        Err(ConfigError::MissingFilePath)
    } else {
        Ok(ConfigView { query: args[1], file_path: args[2], ignore_case: ignores_case(flag) })
    }
}

/// The character sequence of an optional string slice.
pub open spec fn flag_text(flag: Option<&str>) -> Option<Seq<char>> {
    match flag {
        Some(value) => Some(value@),
        None => None,
    }
}

/// A built configuration, or the error, as plain values.
pub open spec fn outcome(built: Result<Config, ConfigError>) -> Result<ConfigView, ConfigError> {
    match built {
        Ok(config) => Ok(config@),
        Err(error) => Err(error),
    }
}

/// A query, or the error, as plain values.
pub open spec fn query_outcome(
    found: Result<String, ConfigError>,
) -> Result<Seq<char>, ConfigError> {
    match found {
        Ok(query) => Ok(query@),
        Err(error) => Err(error),
    }
}

impl ConfigError {
    /// The one-line diagnostic for this error.
    pub fn message(&self) -> (text: &'static str)
        ensures
            text@ == match *self {
                ConfigError::MissingQuery => "Didn't get a query string"@,
                ConfigError::MissingFilePath => "Didn't get a file path"@,
            },
    {
        match self {
            ConfigError::MissingQuery => "Didn't get a query string",
            ConfigError::MissingFilePath => "Didn't get a file path",
        }
    }
}

/// Whether the value of the case flag switches case-insensitive search on.
pub fn case_flag_enables(value: &str) -> (on: bool)
    ensures
        on == flag_enables(value@),
{
    proof {
        reveal_strlit("1");
        reveal_strlit("true");
        assert("1"@ =~= seq!['1']);
        assert("true"@ =~= seq!['t', 'r', 'u', 'e']);
    }
    same_text(value, "1") || same_text(value, "true")
}

/// Reads the query alone from the arguments, for an invocation whose input
/// is piped in and that needs no file path.
pub fn query_argument(args: &[String]) -> (found: Result<String, ConfigError>)
    ensures
        query_outcome(found) == query_of(strings_of(args@)),
{
    if args.len() < 2 {
        Err(ConfigError::MissingQuery)
    } else {
        Ok(args[1].clone())
    }
}

impl Config {
    /// Builds the configuration from the invocation's arguments and from the
    /// value of the case flag, if it is set.
    pub fn build(
        args: &[String],
        env_ignore_case: Option<&str>,
    ) -> (built: Result<Config, ConfigError>)
        ensures
            outcome(built) == resolve(strings_of(args@), flag_text(env_ignore_case)),
    {
        if args.len() < 2 {
            return Err(ConfigError::MissingQuery);
        }
        let query = args[1].clone();
        proof {
            reveal_strlit("help");
            assert("help"@ =~= help_word());
        }
        let file_path = if same_text(query.as_str(), "help") {
            String::new()
        } else if args.len() < 3 {
            return Err(ConfigError::MissingFilePath);
        } else {
            args[2].clone()
        };
        let ignore_case = match env_ignore_case {
            Some(value) => case_flag_enables(value),
            None => false,
        };
        Ok(Config { query, file_path, ignore_case })
    }
}

} // verus!
