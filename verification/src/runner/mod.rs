//! Running a parsed script: its expressions, its scopes and its functions.
pub mod var;
pub mod token_impl;
pub mod vars;
pub mod operation_runner;
pub mod internal_function;
pub mod modifier_runner;
pub mod function;
