//! Index support: the CJK-aware tokenizer, document ids and the content
//! budget per document.
pub mod schema;
pub mod writer;
