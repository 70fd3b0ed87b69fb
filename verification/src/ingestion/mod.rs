//! Ingestion of documents.
//!
//! Books are downloaded, split into header and body, stored in the datalake
//! map, and an indexing task is queued for them. The indexing task
//! tokenizes the body and adds the book to the postings of every token.
//!
//! - `types`: the records of the pipeline.
//! - `indexing`: how a book is added to a postings list.

pub mod indexing;
pub mod types;
