use distributed_cluster::search::tokenizer::{tokenize_query, tokenize_text};
use distributed_cluster::search::types::{SearchResponse, SearchResultItem};
use std::collections::HashMap;

fn has(tokens: &Vec<String>, word: &str) -> bool {
    tokens.iter().any(|t| t == word)
}

// ============================================================
// tokenize_text
// ============================================================

#[test]
fn test_tokenize_text_basic() {
    let tokens = tokenize_text("Hello World");

    assert!(has(&tokens, "hello"));
    assert!(has(&tokens, "world"));
}

#[test]
fn test_tokenize_text_lowercase() {
    let tokens = tokenize_text("RUST Programming LANGUAGE");

    assert!(has(&tokens, "rust"));
    assert!(has(&tokens, "programming"));
    assert!(has(&tokens, "language"));

    assert!(!has(&tokens, "RUST"));
    assert!(!has(&tokens, "Programming"));
}

#[test]
fn test_tokenize_text_filters_short_words() {
    let tokens = tokenize_text("I am a Rust programmer");

    assert!(has(&tokens, "rust"));
    assert!(has(&tokens, "programmer"));

    assert!(!has(&tokens, "i"));
    assert!(!has(&tokens, "am"));
    assert!(!has(&tokens, "a"));
}

#[test]
fn test_tokenize_text_unique_tokens() {
    let tokens = tokenize_text("rust rust rust programming rust");

    let rust_count = tokens.iter().filter(|t| *t == "rust").count();
    assert_eq!(rust_count, 1);
}

#[test]
fn test_tokenize_text_removes_punctuation() {
    let tokens = tokenize_text("Hello, World! How are you?");

    assert!(has(&tokens, "hello"));
    assert!(has(&tokens, "world"));
    assert!(has(&tokens, "how"));
    assert!(has(&tokens, "are"));
    assert!(has(&tokens, "you"));

    assert!(!has(&tokens, "hello,"));
    assert!(!has(&tokens, "world!"));
}

#[test]
fn test_tokenize_text_empty_string() {
    let tokens = tokenize_text("");
    assert!(tokens.is_empty());
}

#[test]
fn test_tokenize_text_only_short_words() {
    let tokens = tokenize_text("I am a be to");
    assert!(tokens.is_empty(), "All words are <= 2 chars");
}

#[test]
fn test_tokenize_text_numbers_ignored() {
    let tokens = tokenize_text("Rust 2024 Programming 123");

    assert!(has(&tokens, "rust"));
    assert!(has(&tokens, "programming"));

    assert!(!has(&tokens, "2024"));
    assert!(!has(&tokens, "123"));
}

#[test]
fn test_tokenize_text_special_characters() {
    let tokens = tokenize_text("C++ is not C# but Rust is great!");

    assert!(has(&tokens, "not"));
    assert!(has(&tokens, "but"));
    assert!(has(&tokens, "rust"));
    assert!(has(&tokens, "great"));

    assert!(!has(&tokens, "c++"));
    assert!(!has(&tokens, "c#"));
}

#[test]
fn test_tokenize_unicode() {
    let tokens = tokenize_text("Książka о программировании");

    assert!(!has(&tokens, "książka"));
    assert!(!has(&tokens, "программировании"));

    println!("Tokens from unicode text: {:?}", tokens);
}

#[test]
fn tokenize_text_keeps_first_appearance_order() {
    let tokens = tokenize_text("Zebra apple zebra Mango apple");
    assert_eq!(tokens, vec!["zebra".to_string(), "apple".to_string(), "mango".to_string()]);
}

#[test]
fn tokenize_text_letters_glued_to_digits_are_not_words() {
    // A run of letters directly followed by a digit has no word boundary
    // after it, so it does not match the word pattern.
    let tokens = tokenize_text("abc123 xyz");
    assert_eq!(tokens, vec!["xyz".to_string()]);
}

// ============================================================
// tokenize_query
// ============================================================

#[test]
fn test_tokenize_query_basic() {
    let tokens = tokenize_query("rust programming");

    assert_eq!(tokens.len(), 2);
    assert!(tokens.contains(&"rust".to_string()));
    assert!(tokens.contains(&"programming".to_string()));
}

#[test]
fn test_tokenize_query_preserves_order() {
    let tokens = tokenize_query("first second third");

    assert_eq!(tokens[0], "first");
    assert_eq!(tokens[1], "second");
    assert_eq!(tokens[2], "third");
}

#[test]
fn test_tokenize_query_filters_short() {
    let tokens = tokenize_query("a is the rust");

    assert!(tokens.contains(&"rust".to_string()));
    assert!(tokens.contains(&"the".to_string()));
    assert!(!tokens.contains(&"a".to_string()));
    assert!(!tokens.contains(&"is".to_string()));
}

#[test]
fn test_tokenize_query_trims_punctuation() {
    let tokens = tokenize_query("hello, world!");

    assert!(tokens.contains(&"hello".to_string()));
    assert!(tokens.contains(&"world".to_string()));
}

#[test]
fn test_tokenize_query_empty() {
    let tokens = tokenize_query("");
    assert!(tokens.is_empty());
}

#[test]
fn test_tokenize_query_allows_duplicates() {
    let tokens = tokenize_query("rust rust rust");

    assert_eq!(tokens.len(), 3);
}

#[test]
fn tokenize_query_length_is_counted_after_trimming() {
    // "ab!" is trimmed to "ab", too short; "!!!" is trimmed to nothing;
    // "(abc)" becomes "abc" and is kept.
    let tokens = tokenize_query("ab! !!! (abc) Xy");
    assert_eq!(tokens, vec!["abc".to_string()]);
    assert!(tokenize_query("ab,").is_empty());
}

#[test]
fn tokenize_query_length_is_in_bytes() {
    // "ąb" is two characters but three bytes.
    let tokens = tokenize_query("ąb");
    assert_eq!(tokens, vec!["ąb".to_string()]);
}

#[test]
fn tokenize_query_splits_on_any_white_space() {
    let tokens = tokenize_query("  Rust\tLANG\nbook\u{3000}wiki  ");
    assert_eq!(
        tokens,
        vec!["rust".to_string(), "lang".to_string(), "book".to_string(), "wiki".to_string()]
    );
}

#[test]
fn tokenize_query_keeps_inner_punctuation() {
    let tokens = tokenize_query("\"don't\" c++ c++x");
    assert_eq!(tokens, vec!["don't".to_string(), "c++x".to_string()]);
}

// ============================================================
// SearchResponse
// ============================================================

#[test]
fn test_search_response_pagination() {
    let response = SearchResponse {
        query: "rust".to_string(),
        filters: HashMap::new(),
        total_count: 100,
        count: 10,
        results: vec![],
    };

    assert!(response.total_count > response.count);
    let _unused: Vec<SearchResultItem> = response.results;
}

// ============================================================
// Scoring logic (as the engine applies it)
// ============================================================

#[test]
fn test_scoring_logic_count_matching_tokens() {
    let query_tokens = tokenize_query("rust programming language");

    let mut index: HashMap<String, Vec<String>> = HashMap::new();
    index.insert(
        "rust".to_string(),
        vec!["book-1".to_string(), "book-2".to_string()],
    );
    index.insert("programming".to_string(), vec!["book-1".to_string()]);
    index.insert("language".to_string(), vec!["book-1".to_string()]);

    let mut book_scores: HashMap<String, usize> = HashMap::new();
    for token in query_tokens.iter() {
        if let Some(book_ids) = index.get(token) {
            for book_id in book_ids {
                *book_scores.entry(book_id.clone()).or_insert(0) += 1;
            }
        }
    }

    assert_eq!(book_scores.get("book-1"), Some(&3));
    assert_eq!(book_scores.get("book-2"), Some(&1));
}

#[test]
fn test_scoring_no_matches() {
    let query_tokens = tokenize_query("xyz abc");

    let mut index: HashMap<String, Vec<String>> = HashMap::new();
    index.insert("rust".to_string(), vec!["book-1".to_string()]);

    let mut book_scores: HashMap<String, usize> = HashMap::new();
    for token in query_tokens.iter() {
        if let Some(book_ids) = index.get(token) {
            for book_id in book_ids {
                *book_scores.entry(book_id.clone()).or_insert(0) += 1;
            }
        }
    }

    assert!(book_scores.is_empty(), "No books should match");
}

#[test]
fn tokens_are_the_same_whatever_the_case() {
    assert_eq!(tokenize_query("RUST Async Book"), tokenize_query("rust async book"));
    assert_eq!(tokenize_query("RUST Async Book"), vec!["rust".to_string(), "async".to_string(), "book".to_string()]);
    assert_eq!(tokenize_text("The RUST Book"), tokenize_text("the rust book"));
}

#[test]
fn ascii_case_changes_keep_query_tokens() {
    let q = "Rust, Tokio and ASYNC io";
    assert_eq!(tokenize_query(&q.to_ascii_uppercase()), tokenize_query(q));
    assert_eq!(tokenize_query(&q.to_ascii_lowercase()), tokenize_query(q));
    let t = "The Tokio Runtime runs ASYNC tasks";
    assert_eq!(tokenize_text(&t.to_ascii_uppercase()), tokenize_text(t));
}
