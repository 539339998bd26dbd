//! What one run of the tool is asked to do, resolved from the command line
//! and the environment.

use vstd::prelude::*;
use vstd::string::*;

verus! {

/// What to search for, where, and how. Made once and never changed.
#[derive(Debug, PartialEq, Eq)]
pub struct Config {
    /// The text to look for.
    pub query: String,
    /// The path of the file to search.
    pub filename: String,
    /// Whether letter case counts.
    pub case_sensitive: bool,
}

/// A [`Config`] as contracts see it: its texts as sequences of characters.
pub struct ConfigView {
    /// The characters of the query.
    pub query: Seq<char>,
    /// The characters of the file's path.
    pub filename: Seq<char>,
    /// Whether letter case counts.
    pub case_sensitive: bool,
}

impl View for Config {
    type V = ConfigView;

    open spec fn view(&self) -> ConfigView {
        ConfigView {
            query: self.query@,
            filename: self.filename@,
            case_sensitive: self.case_sensitive,
        }
    }
}

/// Why the command line could not be resolved into a [`Config`].
#[derive(Debug, Clone, Copy, PartialEq, Eq, Structural)]
pub enum ConfigError {
    /// No query was given.
    MissingQuery,
    /// A query was given, but no file name.
    MissingFilename,
}

impl ConfigError {
    /// The text of the message for this error.
    pub open spec fn message_text(self) -> Seq<char> {
        match self {
            ConfigError::MissingQuery => "You must provide a search query"@,
            ConfigError::MissingFilename => "You must provide a file name"@,
        }
    }

    /// The message shown to the user for this error.
    pub fn message(&self) -> (text: &'static str)
        ensures
            text@ == self.message_text(),
    {
        match self {
            ConfigError::MissingQuery => "You must provide a search query",
            ConfigError::MissingFilename => "You must provide a file name",
        }
    }
}

impl Config {
    /// What the arguments `args` of a process resolve into, in an
    /// environment in which the case variable is set or not.
    ///
    /// The first argument is the name the program was called by and is
    /// passed over. The second is the query and the third the file name;
    /// what follows them is ignored. The search is case sensitive exactly
    /// when the variable is not set.
    pub open spec fn resolved(args: Seq<Seq<char>>, variable_set: bool) -> Result<
        ConfigView,
        ConfigError,
    > {
        if args.len() < 2 {
            Err(ConfigError::MissingQuery)
        } else if args.len() < 3 {
            Err(ConfigError::MissingFilename)
        } else {
            Ok(ConfigView { query: args[1], filename: args[2], case_sensitive: !variable_set })
        }
    }

    /// The name of the environment variable that switches letter case off.
    pub fn case_variable() -> (name: &'static str)
        ensures
            name@ == "CASE_INSENSITIVE"@,
    {
        "CASE_INSENSITIVE"
    }

    /// Resolves the arguments of the process and the environment's answer
    /// into a configuration.
    ///
    /// `args` are the arguments as the process received them, the name of
    /// the program first. `case_variable` is the value of the environment
    /// variable named by [`Config::case_variable`], or `None` where it is not
    /// set; the value itself, empty or not, does not count.
    pub fn new(args: &[String], case_variable: Option<&str>) -> (outcome: Result<
        Config,
        ConfigError,
    >)
        ensures
            Config::resolved(args.deep_view(), case_variable is Some) == (match outcome {
                Ok(config) => Ok(config@),
                Err(error) => Err(error),
            }),
    {
        if args.len() < 2 {
            return Err(ConfigError::MissingQuery);
        }
        if args.len() < 3 {
            return Err(ConfigError::MissingFilename);
        }
        let query = args[1].clone();
        let filename = args[2].clone();
        let case_sensitive = case_variable.is_none();
        Ok(Config { query, filename, case_sensitive })
    }
}

} // verus!
