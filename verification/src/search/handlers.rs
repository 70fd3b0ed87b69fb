//! Search responses and new book records.
//!
//! The search endpoint tokenizes the query, gathers postings and metadata,
//! ranks (see `engine`), and answers with one page of results; the book
//! endpoint records metadata for a new book under a fresh id. The pieces
//! that decide what is answered are here.

use std::collections::HashMap;
use vstd::prelude::*;

use crate::ingestion::types::IndexTaskPayload;
use crate::search::types::{BookMetadata, SearchResponse, SearchResultItem};
use crate::sys::uuid_v4_string;
use crate::storage::handlers::{STATUS_CREATED, STATUS_INTERNAL_SERVER_ERROR};

verus! {

/// Results per page when the query does not say.
pub const DEFAULT_LIMIT: usize = 10;

/// Query parameters of a search.
#[derive(Debug)]
pub struct SearchParams {
    pub q: String,
    pub limit: Option<usize>,
    pub offset: Option<usize>,
}

/// A request to record a new book.
#[derive(Debug)]
pub struct CreateBookRequest {
    pub title: String,
    pub author: String,
    pub language: String,
    pub year: Option<u32>,
}

/// The id given to a new book.
#[derive(Debug)]
pub struct CreateBookResponse {
    pub book_id: String,
}

/// The result item for a ranked book.
pub open spec fn result_item(r: (BookMetadata, usize)) -> SearchResultItem {
    SearchResultItem { book_id: r.0.book_id, title: r.0.title, author: r.0.author, score: r.1 }
}

/// The page of `items` that starts at `offset` and holds at most `limit`
/// items (what `skip(offset).take(limit)` yields).
pub open spec fn page<T>(items: Seq<T>, offset: usize, limit: usize) -> Seq<T> {
    let lo = if offset < items.len() {
        offset as int
    } else {
        items.len() as int
    };
    let hi = if limit < items.len() - lo {
        lo + limit
    } else {
        items.len() as int
    };
    items.subrange(lo, hi)
}

/// A page holds the items from position `offset` on, in order, as many as
/// `limit` allows and the items last: none when `offset` is past the end.
pub proof fn law_page_window<T>(items: Seq<T>, offset: usize, limit: usize)
    ensures
        page(items, offset, limit).len() == if offset >= items.len() {
            0
        } else if limit < items.len() - offset {
            limit as int
        } else {
            items.len() - offset
        },
        forall|i: int| 0 <= i < page(items, offset, limit).len() ==> #[trigger] page(items, offset, limit)[i]
            == items[offset + i],
{
}

/// The result items for ranked books, in order.
pub fn search_result_items(ranked: Vec<(BookMetadata, usize)>) -> (items: Vec<SearchResultItem>)
    ensures
        items@ == ranked@.map_values(|r: (BookMetadata, usize)| result_item(r)),
{
    let mut items: Vec<SearchResultItem> = Vec::new();
    let n = ranked.len();
    let mut i: usize = 0;
    while i < n
        invariant
            n == ranked@.len(),
            i <= n,
            items@ == ranked@.take(i as int).map_values(|r: (BookMetadata, usize)| result_item(r)),
        decreases n - i,
    {
        let r = &ranked[i];
        items.push(
            SearchResultItem {
                book_id: r.0.book_id.clone(),
                title: r.0.title.clone(),
                author: r.0.author.clone(),
                score: r.1,
            },
        );
        proof {
            assert(ranked@.take(i + 1).map_values(|r: (BookMetadata, usize)| result_item(r)) =~= ranked@.take(
                i as int,
            ).map_values(|r: (BookMetadata, usize)| result_item(r)).push(result_item(ranked@[i as int])));
        }
        i = i + 1;
    }
    proof {
        assert(ranked@.take(n as int) =~= ranked@);
    }
    items
}

/// The answer to a search: the query, no filters, the number of results,
/// and the page of results that `offset` (default 0) and `limit` (default
/// 10) select, with its size.
pub fn build_search_response(
    query: String,
    results: Vec<SearchResultItem>,
    limit: Option<usize>,
    offset: Option<usize>,
) -> (r: SearchResponse)
    ensures
        r.query == query,
        r.filters@ == Map::<String, String>::empty(),
        r.total_count == results@.len(),
        r.results@ == page(
            results@,
            match offset {
                Some(o) => o,
                None => 0,
            },
            match limit {
                Some(l) => l,
                None => DEFAULT_LIMIT,
            },
        ),
        r.count == r.results@.len(),
{
    let limit = match limit {
        Some(l) => l,
        None => DEFAULT_LIMIT,
    };
    let offset = match offset {
        Some(o) => o,
        None => 0,
    };
    let total_count = results.len();
    let lo = if offset < total_count {
        offset
    } else {
        total_count
    };
    let hi = if limit < total_count - lo {
        lo + limit
    } else {
        total_count
    };
    let mut page_items: Vec<SearchResultItem> = Vec::new();
    let mut i = lo;
    while i < hi
        invariant
            lo <= i <= hi,
            hi <= results@.len(),
            page_items@ == results@.subrange(lo as int, i as int),
        decreases hi - i,
    {
        page_items.push(results[i].clone());
        proof {
            assert(results@.subrange(lo as int, i + 1) =~= results@.subrange(lo as int, i as int).push(
                results@[i as int],
            ));
        }
        i = i + 1;
    }
    let count = page_items.len();
    SearchResponse { query, filters: HashMap::new(), total_count, count, results: page_items }
}

/// The metadata recorded for a new book: the request's fields under the
/// given id, with no word counts yet.
pub fn book_from_request(book_id: String, req: CreateBookRequest) -> (b: BookMetadata)
    ensures
        b == (BookMetadata {
            book_id,
            title: req.title,
            author: req.author,
            language: req.language,
            year: req.year,
            word_count: 0,
            unique_words: 0,
        }),
{
    BookMetadata {
        book_id,
        title: req.title,
        author: req.author,
        language: req.language,
        year: req.year,
        word_count: 0,
        unique_words: 0,
    }
}

/// The metadata of a new book: the request's fields under a fresh random
/// id (36 characters of hyphenated text), with no word counts yet.
pub fn new_book(req: CreateBookRequest) -> (b: BookMetadata)
    ensures
        b.book_id@.len() == 36,
        b.title == req.title,
        b.author == req.author,
        b.language == req.language,
        b.year == req.year,
        b.word_count == 0,
        b.unique_words == 0,
{
    let id = uuid_v4_string();
    book_from_request(id, req)
}

/// The indexing work that follows a book creation: the book is indexed
/// exactly when its metadata was stored.
pub fn index_request(stored: bool, book_id: String) -> (r: Option<IndexTaskPayload>)
    ensures
        r is Some <==> stored,
        r matches Some(p) ==> p.book_id == book_id,
{
    if stored {
        Some(IndexTaskPayload { book_id })
    } else {
        None
    }
}

/// The answer to a book creation: created when the metadata was stored,
/// an internal error otherwise; the id either way.
pub fn create_book_reply(stored: bool, book_id: String) -> (r: (u16, CreateBookResponse))
    ensures
        r.0 == if stored {
            STATUS_CREATED
        } else {
            STATUS_INTERNAL_SERVER_ERROR
        },
        r.1.book_id == book_id,
{
    if stored {
        (STATUS_CREATED, CreateBookResponse { book_id })
    } else {
        (STATUS_INTERNAL_SERVER_ERROR, CreateBookResponse { book_id })
    }
}

} // verus!
