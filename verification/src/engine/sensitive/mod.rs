//! Sensitive-information detection: the rule model and matcher (`rules`) and
//! the per-file scan (`scanner`).
pub mod rules;
pub mod scanner;
