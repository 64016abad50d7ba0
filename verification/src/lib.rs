//! Drython: the parser of a small line-based scripting language.
//!
//! Source text is read as a sequence of characters; every function in this
//! crate states its result over `Seq<char>` views of the strings involved.
pub mod text;
pub mod utility;
pub mod types;
pub mod script_type;
pub mod error;
pub mod parser;
pub mod runner;
pub mod external;
pub mod convert;
