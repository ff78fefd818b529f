//! Dylint's decision logic: option handling, dependency-specification checks, the search for a
//! `clippy_utils` revision, and the token-level rewriting used to upgrade lint libraries.

pub mod text;
pub mod paths;
pub mod edits;
pub mod hex;
pub mod opts;
pub mod dependency;
pub mod revs;
pub mod tokenization;
pub mod highlight;
pub mod rewrite;
pub mod short_id;
pub mod span;
pub mod correct;
pub mod driver;
pub mod clippy_utils;
pub mod library;
pub mod run;
pub mod error;
pub mod template;
pub mod listing;
