//! The search request, and how it is resolved from command-line tokens and
//! one presence flag of the environment.

use vstd::prelude::*;

verus! {

/// Why no search request could be resolved.
#[derive(Debug, Clone, Copy, PartialEq, Eq, Structural)]
pub enum ConfigError {
    /// No token follows the program's name.
    MissingQuery,
    /// Only the query follows the program's name.
    MissingFilename,
    /// Fewer than three tokens follow the program's name.
    InsufficientArguments,
}

/// A resolved search request.
#[derive(Debug)]
pub struct Config {
    /// The text to look for.
    pub query: String,
    /// The path of the file to search.
    pub filename: String,
    /// Whether letters match only in their own case.
    pub case_sensitive: bool,
}

/// A search request as plain values.
pub struct ConfigView {
    pub query: Seq<char>,
    pub filename: Seq<char>,
    pub case_sensitive: bool,
}

impl View for Config {
    type V = ConfigView;

    open spec fn view(&self) -> ConfigView {
        ConfigView {
            query: self.query@,
            filename: self.filename@,
            case_sensitive: self.case_sensitive,
        }
    }
}

/// The name of the environment variable whose presence, whatever its value,
/// switches case sensitivity off.
pub fn case_flag_key() -> (key: &'static str)
    ensures
        key@ == "CASE_INSENSITIVE"@,
{
    "CASE_INSENSITIVE"
}

/// How many tokens follow the program's name, which is the first token.
pub open spec fn given(tokens: Seq<String>) -> int {
    if tokens.len() == 0 {
        0
    } else {
        tokens.len() - 1
    }
}

/// The request that `tokens` and the presence of the flag resolve to. The
/// first token after the program's name is the query, the second the file's
/// name; a third must be there, and is not read. The search is case
/// sensitive exactly when the flag is absent.
pub open spec fn resolved(tokens: Seq<String>, flag_present: bool) -> Result<
    ConfigView,
    ConfigError,
> {
    if given(tokens) < 1 {
        Err(ConfigError::MissingQuery)
    } else if given(tokens) < 2 {
        Err(ConfigError::MissingFilename)
    } else if given(tokens) < 3 {
        Err(ConfigError::InsufficientArguments)
    } else {
        Ok(
            ConfigView {
                query: tokens[1]@,
                filename: tokens[2]@,
                case_sensitive: !flag_present,
            },
        )
    }
}

impl ConfigError {
    /// The message that tells a user of this error.
    pub fn message(&self) -> (text: &'static str)
        ensures
            text@ == match *self {
                ConfigError::MissingQuery => "Did not get a query string"@,
                ConfigError::MissingFilename => "Did not get a filename string"@,
                ConfigError::InsufficientArguments => "Not Enough Arguments"@,
            },
    {
        match self {
            ConfigError::MissingQuery => "Did not get a query string",
            ConfigError::MissingFilename => "Did not get a filename string",
            ConfigError::InsufficientArguments => "Not Enough Arguments",
        }
    }
}

impl Config {
    /// Resolves a search request from the process's argument tokens, the
    /// program's name first, and from the value of the case flag in the
    /// environment, `None` where it is not set. Only the flag's presence
    /// counts: any value, the empty one too, switches case sensitivity off.
    pub fn new(args: Vec<String>, case_flag: Option<String>) -> (r: Result<Config, ConfigError>)
        ensures
            match r {
                Ok(config) => resolved(args@, case_flag is Some) == Ok::<ConfigView, ConfigError>(
                    config@,
                ),
                Err(e) => resolved(args@, case_flag is Some) == Err::<ConfigView, ConfigError>(e),
            },
    {
        let n = args.len();
        if n < 2 {
            return Err(ConfigError::MissingQuery);
        }
        if n < 3 {
            return Err(ConfigError::MissingFilename);
        }
        if n < 4 {
            return Err(ConfigError::InsufficientArguments);
        }
        let query = args[1].clone();
        let filename = args[2].clone();
        let case_sensitive = case_flag.is_none();
        Ok(Config { query, filename, case_sensitive })
    }
}

/// A request is resolved exactly when at least three tokens follow the
/// program's name; with fewer, the error tells how many were there.
pub proof fn law_request_needs_three_tokens(tokens: Seq<String>, flag_present: bool)
    ensures
        resolved(tokens, flag_present) is Ok <==> tokens.len() >= 4,
        tokens.len() <= 1 ==> resolved(tokens, flag_present) == Err::<ConfigView, ConfigError>(
            ConfigError::MissingQuery,
        ),
        tokens.len() == 2 ==> resolved(tokens, flag_present) == Err::<ConfigView, ConfigError>(
            ConfigError::MissingFilename,
        ),
        tokens.len() == 3 ==> resolved(tokens, flag_present) == Err::<ConfigView, ConfigError>(
            ConfigError::InsufficientArguments,
        ),
{
}

/// Of the case flag only the presence counts: a request resolved with the
/// flag set, to whatever value, is case-insensitive, and one resolved
/// without it is case sensitive.
pub proof fn law_only_the_presence_of_the_flag_counts(tokens: Seq<String>, flag: Option<String>)
    requires
        tokens.len() >= 4,
    ensures
        resolved(tokens, flag is Some) matches Ok(request) && request.case_sensitive == (flag
            is None) && request.query == tokens[1]@ && request.filename == tokens[2]@,
{
}

} // verus!
