//! A library for GitHub-style CODEOWNERS files: an ordered list of
//! (path pattern, owners) rules, queried per path with "last matching
//! rule wins" precedence.

pub mod glob;
pub mod owner;
pub mod pattern;
pub mod rule;
pub mod table;
pub mod text;

pub use owner::Owner;
pub use pattern::pattern_to_glob;
pub use rule::{ParseError, Rule};
pub use table::{parse, Codeowners};
