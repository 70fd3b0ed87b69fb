//! Full-text search.
//!
//! Documents are tokenized into distinct lowercase words for the inverted
//! index (word to book ids); queries are tokenized into a word list. A book
//! scores one point for every occurrence of its id in the postings of the
//! query words, results are ranked by score, and a page of them is returned.
//!
//! - `tokenizer`: document and query tokenization.
//! - `engine`: scoring and ranking.
//! - `handlers`: building search responses and new book records.
//! - `types`: the records the search API exchanges.

pub mod engine;
pub mod handlers;
pub mod laws;
pub mod tokenizer;
pub mod types;
