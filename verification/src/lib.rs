//! Permission-grammar parsing and SQL-predicate compilation.
//!
//! A compact textual authorization spec such as
//! `READ(equipment[1],person[7])|WRITE(*)|CREATE(true)` is parsed into a
//! structured permission value, and that value is compiled back into a
//! row-filter fragment for a data-access query.  Two grammar variants are
//! supported: the extended one (tagged scopes and a mandatory create clause,
//! module [`permission`]) and the minimal one (bare integer scopes, module
//! [`auth`]).

pub mod auth;
pub mod permission;
pub mod scopes;
pub mod text;
