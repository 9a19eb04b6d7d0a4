//! Named Git identity profiles and the typed configuration values they hold:
//! reading them from a TOML document, writing them back, and rendering each
//! value in the form that `git config` takes.

pub mod config;
pub mod error;
pub mod git_list;
pub mod keyed;
pub mod laws;
pub mod parse;
pub mod text;
pub mod toml_doc;
pub mod tree;
pub mod value;

pub use config::{Config, Profile};
pub use error::ConfigError;
pub use tree::Node;
pub use value::{Color, FromGitStr, ToGitString, Value};
