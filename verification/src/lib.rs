//! Core of a local document search and sensitive-content detection tool,
//! with its behaviour stated in contracts: query rewriting, rule matching,
//! snippets, tokenization, content extraction decisions, batch bookkeeping
//! and change debouncing.

pub mod commands;
pub mod engine;
pub mod text;
