//! What can go wrong when a configuration is read or used.

use vstd::prelude::*;

verus! {

/// Why a configuration could not be read, or a request on it not met.
#[derive(Debug, Clone, PartialEq, Eq)]
pub enum ConfigError {
    /// The document is not TOML; the parser's message.
    Syntax(String),
    /// The document's root is not a table.
    NotATable,
    /// An array holds something other than color numbers and keywords.
    NonColorArray,
    /// A float, date, time or date-time, which Git has no form for.
    UnsupportedScalar,
    /// A profile was given an empty name.
    EmptyProfileName,
    /// No profile was named and none is active.
    NoProfileSelected,
    /// No profile has this name.
    ProfileNotFound(String),
    /// A line of Git's configuration listing without `=`.
    MalformedGitLine(String),
}

} // verus!
