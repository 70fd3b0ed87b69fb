use distributed_cluster::cli::{args_complete, parse_args};
use distributed_cluster::ingestion::indexing::add_posting;
use distributed_cluster::search::engine::{
    attach_metadata, distinct_ids, rank_results, score_books, score_terms, search_terms,
};
use distributed_cluster::search::tokenizer::document_tokens;
use distributed_cluster::search::handlers::{
    book_from_request, build_search_response, create_book_reply, index_request, new_book,
    search_result_items, CreateBookRequest, DEFAULT_LIMIT,
};
use distributed_cluster::search::types::{BookMetadata, SearchResultItem};
use distributed_cluster::storage::handlers::{STATUS_CREATED, STATUS_INTERNAL_SERVER_ERROR};
use distributed_cluster::ui::{decimal_chars, resolve_node_url, search_proxy_url, trim_trailing_slashes};

fn s(x: &str) -> String {
    x.to_string()
}

fn book(id: &str) -> BookMetadata {
    BookMetadata {
        book_id: s(id),
        title: format!("Title of {}", id),
        author: s("Someone"),
        language: s("en"),
        year: Some(2020),
        word_count: 0,
        unique_words: 0,
    }
}

fn item(id: &str, score: usize) -> SearchResultItem {
    SearchResultItem { book_id: s(id), title: s("t"), author: s("a"), score }
}

#[test]
fn scores_count_occurrences_in_first_seen_order() {
    let postings = vec![
        vec![s("book-1"), s("book-2")],
        vec![s("book-1")],
        vec![s("book-3"), s("book-1")],
    ];
    let scores = score_books(&postings);
    assert_eq!(scores, vec![(s("book-1"), 3), (s("book-2"), 1), (s("book-3"), 1)]);
    assert!(score_books(&vec![]).is_empty());
    assert!(score_books(&vec![vec![], vec![]]).is_empty());
}

#[test]
fn a_repeated_posting_or_term_counts_once() {
    let postings = vec![
        vec![s("b1"), s("b1"), s("b2")],
        vec![s("b1")],
        vec![s("b2"), s("b3")],
    ];
    let scores = score_terms(&postings);
    assert_eq!(scores, vec![(s("b1"), 2), (s("b2"), 2), (s("b3"), 1)]);
    assert!(score_terms(&vec![]).is_empty());
}

#[test]
fn distinct_ids_keeps_first_occurrences() {
    let ids = distinct_ids(&vec![s("rust"), s("book"), s("rust"), s("tokio"), s("book")]);
    assert_eq!(ids, vec![s("rust"), s("book"), s("tokio")]);
    assert!(distinct_ids(&vec![]).is_empty());
}

#[test]
fn document_tokens_drop_short_and_repeated_words() {
    let tokens = document_tokens(&vec![s("rust"), s("is"), s("rust"), s("books"), s("abc"), s("ab")]);
    assert_eq!(tokens, vec![s("rust"), s("books"), s("abc")]);
    assert!(document_tokens(&vec![]).is_empty());
}

#[test]
fn ranking_is_by_score_descending_and_stable() {
    let ranked = rank_results(vec![
        (book("a"), 1),
        (book("b"), 3),
        (book("c"), 1),
        (book("d"), 3),
        (book("e"), 2),
    ]);
    let order: Vec<(String, usize)> =
        ranked.iter().map(|(b, sc)| (b.book_id.clone(), *sc)).collect();
    assert_eq!(
        order,
        vec![(s("b"), 3), (s("d"), 3), (s("e"), 2), (s("a"), 1), (s("c"), 1)]
    );
    assert!(rank_results(vec![]).is_empty());
}

#[test]
fn result_items_carry_metadata_and_score() {
    let items = search_result_items(vec![(book("x"), 4), (book("y"), 2)]);
    assert_eq!(items.len(), 2);
    assert_eq!(items[0].book_id, "x");
    assert_eq!(items[0].title, "Title of x");
    assert_eq!(items[0].author, "Someone");
    assert_eq!(items[0].score, 4);
    assert_eq!(items[1].book_id, "y");
    assert_eq!(items[1].score, 2);
}

#[test]
fn search_response_pages_results() {
    let results: Vec<SearchResultItem> = (0..25).map(|i| item(&format!("b{}", i), 25 - i)).collect();

    let r = build_search_response(s("rust"), results.clone(), None, None);
    assert_eq!(r.query, "rust");
    assert!(r.filters.is_empty());
    assert_eq!(r.total_count, 25);
    assert_eq!(r.count, DEFAULT_LIMIT);
    assert_eq!(r.results[0].book_id, "b0");
    assert_eq!(r.results[9].book_id, "b9");

    let r = build_search_response(s("rust"), results.clone(), Some(10), Some(20));
    assert_eq!(r.total_count, 25);
    assert_eq!(r.count, 5);
    assert_eq!(r.results[0].book_id, "b20");

    let r = build_search_response(s("rust"), results.clone(), Some(3), Some(100));
    assert_eq!(r.count, 0);
    assert!(r.results.is_empty());

    let r = build_search_response(s("rust"), results, Some(0), Some(0));
    assert_eq!(r.count, 0);

    let r = build_search_response(s("none"), vec![], None, None);
    assert_eq!(r.total_count, 0);
    assert_eq!(r.count, 0);
}

#[test]
fn new_book_takes_request_fields() {
    let b = book_from_request(
        s("id-1"),
        CreateBookRequest { title: s("T"), author: s("A"), language: s("es"), year: None },
    );
    assert_eq!(b.book_id, "id-1");
    assert_eq!(b.title, "T");
    assert_eq!(b.author, "A");
    assert_eq!(b.language, "es");
    assert_eq!(b.year, None);
    assert_eq!(b.word_count, 0);
    assert_eq!(b.unique_words, 0);

    let (status, body) = create_book_reply(true, s("id-1"));
    assert_eq!(status, STATUS_CREATED);
    assert_eq!(body.book_id, "id-1");
    let (status, body) = create_book_reply(false, s("id-2"));
    assert_eq!(status, STATUS_INTERNAL_SERVER_ERROR);
    assert_eq!(body.book_id, "id-2");
}

#[test]
fn each_new_book_gets_a_fresh_id() {
    let req = || CreateBookRequest { title: s("T"), author: s("A"), language: s("en"), year: Some(1999) };
    let a = new_book(req());
    let b = new_book(req());
    assert_eq!(a.book_id.len(), 36);
    assert_eq!(a.book_id.matches('-').count(), 4);
    assert_ne!(a.book_id, b.book_id);
    assert_eq!(a.title, "T");
    assert_eq!(a.year, Some(1999));
    assert_eq!(a.word_count, 0);
}

#[test]
fn a_book_is_indexed_only_once_stored() {
    assert_eq!(index_request(true, s("id-1")).map(|p| p.book_id), Some(s("id-1")));
    assert!(index_request(false, s("id-1")).is_none());
}

#[test]
fn add_posting_appends_once() {
    let mut list: Vec<String> = vec![];
    add_posting(&mut list, &s("book-001"));
    add_posting(&mut list, &s("book-002"));
    add_posting(&mut list, &s("book-001"));
    assert_eq!(list, vec![s("book-001"), s("book-002")]);
}

#[test]
fn node_url_is_normalized() {
    let base = "http://127.0.0.1:8080";
    assert_eq!(resolve_node_url(base, None), "http://127.0.0.1:8080");
    assert_eq!(resolve_node_url("127.0.0.1:8080/", None), "http://127.0.0.1:8080");
    assert_eq!(resolve_node_url(base, Some(s("  10.0.0.2:9000// "))), "http://10.0.0.2:9000");
    assert_eq!(resolve_node_url(base, Some(s("https://node.example/"))), "https://node.example");
    assert_eq!(resolve_node_url(base, Some(s("   "))), base);
    assert_eq!(resolve_node_url("  ", None), "  ");
    assert_eq!(trim_trailing_slashes("a//"), "a");
    assert_eq!(trim_trailing_slashes("///"), "");
    assert_eq!(trim_trailing_slashes("a/b"), "a/b");
}

#[test]
fn command_line_bind_and_seeds() {
    let args: Vec<String> = ["node", "--bind", "127.0.0.1:5000", "--seed", "10.0.0.1:5000", "extra", "--seed", "10.0.0.2:5000"]
        .iter()
        .map(|a| s(a))
        .collect();
    let parsed = parse_args(&args);
    assert_eq!(parsed.bind, Some(s("127.0.0.1:5000")));
    assert_eq!(parsed.seeds, vec![s("10.0.0.1:5000"), s("10.0.0.2:5000")]);

    let twice: Vec<String> = ["node", "--bind", "a:1", "--bind", "b:2"].iter().map(|a| s(a)).collect();
    assert_eq!(parse_args(&twice).bind, Some(s("b:2")));

    let none: Vec<String> = vec![s("node")];
    let parsed = parse_args(&none);
    assert_eq!(parsed.bind, None);
    assert!(parsed.seeds.is_empty());
}

#[test]
fn command_line_flags_need_values() {
    let ok: Vec<String> = ["node", "--bind", "a:1", "--seed", "b:2"].iter().map(|a| s(a)).collect();
    assert!(args_complete(&ok));
    let dangling: Vec<String> = ["node", "--bind", "a:1", "--seed"].iter().map(|a| s(a)).collect();
    assert!(!args_complete(&dangling));
    let only_flag: Vec<String> = ["node", "--bind"].iter().map(|a| s(a)).collect();
    assert!(!args_complete(&only_flag));
    // The program name itself is never read as a flag.
    let name_is_flag: Vec<String> = ["--bind"].iter().map(|a| s(a)).collect();
    assert!(args_complete(&name_is_flag));
    // A flag's value is not read as a flag.
    let value_is_flag: Vec<String> = ["node", "--seed", "--bind"].iter().map(|a| s(a)).collect();
    assert!(args_complete(&value_is_flag));
    assert_eq!(parse_args(&value_is_flag).seeds, vec![s("--bind")]);
}

#[test]
fn search_proxy_url_encodes_the_query_and_defaults_the_limit() {
    assert_eq!(
        search_proxy_url("http://n1:8001", "rust & tokio", None),
        "http://n1:8001/search?q=rust%20%26%20tokio&limit=5"
    );
    assert_eq!(
        search_proxy_url("http://n1:8001", "a-b_c.d~e", Some(25)),
        "http://n1:8001/search?q=a-b_c.d~e&limit=25"
    );
    assert_eq!(
        search_proxy_url("http://n1:8001", "café/ü", Some(0)),
        "http://n1:8001/search?q=caf%C3%A9%2F%C3%BC&limit=0"
    );
}

#[test]
fn decimal_chars_writes_digits() {
    let s: String = decimal_chars(0).into_iter().collect();
    assert_eq!(s, "0");
    let s: String = decimal_chars(1207).into_iter().collect();
    assert_eq!(s, "1207");
    let s: String = decimal_chars(usize::MAX).into_iter().collect();
    assert_eq!(s, usize::MAX.to_string());
}

#[test]
fn search_terms_are_distinct_query_tokens() {
    assert_eq!(search_terms("Rust rust RUST, tokio async"), vec![s("rust"), s("tokio"), s("async")]);
    assert!(search_terms("a an to").is_empty());
}

#[test]
fn attach_metadata_drops_books_without_metadata() {
    let scores = vec![(s("a"), 2), (s("b"), 1), (s("c"), 3)];
    let r = attach_metadata(scores, vec![Some(book("a")), None, Some(book("c"))]);
    let got: Vec<(String, usize)> = r.iter().map(|(b, n)| (b.book_id.clone(), *n)).collect();
    assert_eq!(got, vec![(s("a"), 2), (s("c"), 3)]);
    assert!(attach_metadata(vec![], vec![]).is_empty());
}
