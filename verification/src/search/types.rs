//! Records of the search API.

use std::collections::HashMap;
use vstd::prelude::*;

verus! {

/// A book as a simplified result.
#[derive(Debug)]
pub struct BookResult {
    pub book_id: String,
    pub title: String,
    pub author: String,
    pub language: String,
    pub year: Option<u32>,
}

/// The answer to a search query.
#[derive(Debug)]
pub struct SearchResponse {
    /// The query as given.
    pub query: String,
    /// Filters applied to the search (such as language).
    pub filters: HashMap<String, String>,
    /// Number of matching books before pagination.
    pub total_count: usize,
    /// Number of results in this page.
    pub count: usize,
    /// The ranked results of this page.
    pub results: Vec<SearchResultItem>,
}

/// One search result with its score (higher is better).
#[derive(Debug)]
pub struct SearchResultItem {
    pub book_id: String,
    pub title: String,
    pub author: String,
    pub score: usize,
}

/// Metadata of an indexed book, kept apart from the inverted index.
#[derive(Debug)]
pub struct BookMetadata {
    pub book_id: String,
    pub title: String,
    pub author: String,
    pub language: String,
    pub year: Option<u32>,
    /// Number of words in the document.
    pub word_count: usize,
    /// Number of distinct tokens in the document.
    pub unique_words: usize,
}

impl Clone for SearchResultItem {
    fn clone(&self) -> (r: Self)
        ensures
            r == *self,
    {
        SearchResultItem {
            book_id: self.book_id.clone(),
            title: self.title.clone(),
            author: self.author.clone(),
            score: self.score,
        }
    }
}

impl Clone for BookMetadata {
    fn clone(&self) -> (r: Self)
        ensures
            r == *self,
    {
        BookMetadata {
            book_id: self.book_id.clone(),
            title: self.title.clone(),
            author: self.author.clone(),
            language: self.language.clone(),
            year: self.year,
            word_count: self.word_count,
            unique_words: self.unique_words,
        }
    }
}

} // verus!
