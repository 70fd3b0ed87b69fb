//! Laws of tokenizing, scoring and ranking.

use vstd::prelude::*;

use crate::search::engine::{occurrences, rank_pos, ranked, tally, tally_index};
use crate::search::tokenizer::{
    byte_len, distinct_long_words, query_tokens, query_words, regex_matches, text_tokens,
    trim_non_alphanumeric,
    WORD_PATTERN,
};
use crate::search::types::BookMetadata;
use crate::search::tokenizer::ascii_query_tokens;
use crate::sys::{ascii_lower, ascii_upper, is_ascii_str, unicode_lowercase};

verus! {

proof fn lemma_index_of_tally(t: Seq<(Seq<char>, nat)>, x: Seq<char>)
    ensures
        match tally_index(t, x) {
            Some(j) => 0 <= j < t.len() && t[j].0 == x,
            None => forall|k: int| 0 <= k < t.len() ==> #[trigger] t[k].0 != x,
        },
    decreases t.len(),
{
    if t.len() > 0 && t.last().0 != x {
        lemma_index_of_tally(t.drop_last(), x);
        assert forall|k: int| 0 <= k < t.len() - 1 implies #[trigger] t[k].0 == t.drop_last()[k].0 by {}
    }
}

/// A score lists every book at most once, gives each listed book the
/// number of times its id occurs in the postings, and lists every book
/// that occurs.
pub proof fn law_scores_count_occurrences(s: Seq<Seq<char>>)
    ensures
        forall|i: int, j: int|
            0 <= i < tally(s).len() && 0 <= j < tally(s).len() && i != j ==> #[trigger] tally(s)[i].0
                != #[trigger] tally(s)[j].0,
        forall|i: int| 0 <= i < tally(s).len() ==> #[trigger] tally(s)[i].1 == occurrences(s, tally(s)[i].0),
        forall|x: Seq<char>| #[trigger] occurrences(s, x) > 0 ==> exists|i: int| 0 <= i < tally(s).len() && #[trigger] tally(s)[i].0 == x,
    decreases s.len(),
{
    if s.len() > 0 {
        let init = s.drop_last();
        let x = s.last();
        law_scores_count_occurrences(init);
        let t = tally(init);
        lemma_index_of_tally(t, x);
        let t2 = tally(s);
        match tally_index(t, x) {
            Some(j) => {
                assert(t2 == t.update(j, (x, t[j].1 + 1)));
                assert forall|i: int| 0 <= i < t2.len() implies #[trigger] t2[i].1 == occurrences(s, t2[i].0) by {
                    assert(t[i].1 == occurrences(init, t[i].0));
                }
                assert forall|y: Seq<char>| #[trigger] occurrences(s, y) > 0 implies exists|i: int|
                    0 <= i < t2.len() && #[trigger] t2[i].0 == y by {
                    if y == x {
                        assert(t2[j].0 == y);
                    } else {
                        assert(occurrences(init, y) > 0);
                        let i = choose|i: int| 0 <= i < t.len() && #[trigger] t[i].0 == y;
                        assert(t2[i].0 == y);
                    }
                }
            },
            None => {
                assert(t2 == t.push((x, 1nat)));
                assert(occurrences(init, x) == 0) by {
                    if occurrences(init, x) > 0 {
                        let i = choose|i: int| 0 <= i < t.len() && #[trigger] t[i].0 == x;
                    }
                }
                assert forall|i: int| 0 <= i < t2.len() implies #[trigger] t2[i].1 == occurrences(s, t2[i].0) by {
                    if i < t.len() {
                        assert(t[i].1 == occurrences(init, t[i].0));
                    }
                }
                assert forall|y: Seq<char>| #[trigger] occurrences(s, y) > 0 implies exists|i: int|
                    0 <= i < t2.len() && #[trigger] t2[i].0 == y by {
                    if y == x {
                        assert(t2[t.len() as int].0 == y);
                    } else {
                        assert(occurrences(init, y) > 0);
                        let i = choose|i: int| 0 <= i < t.len() && #[trigger] t[i].0 == y;
                        assert(t2[i].0 == y);
                    }
                }
            },
        }
    }
}

proof fn lemma_rank_pos(r: Seq<(BookMetadata, usize)>, score: usize)
    ensures
        rank_pos(r, score) <= r.len(),
        forall|k: int| 0 <= k < rank_pos(r, score) ==> #[trigger] r[k].1 >= score,
        rank_pos(r, score) < r.len() ==> r[rank_pos(r, score) as int].1 < score,
    decreases r.len(),
{
    if r.len() > 0 && r[0].1 >= score {
        lemma_rank_pos(r.drop_first(), score);
        assert forall|k: int| 0 <= k < rank_pos(r, score) implies #[trigger] r[k].1 >= score by {
            if k > 0 {
                assert(r[k] == r.drop_first()[k - 1]);
            }
        }
        if rank_pos(r, score) < r.len() {
            assert(r[rank_pos(r, score) as int] == r.drop_first()[rank_pos(r.drop_first(), score) as int]);
        }
    }
}

/// Ranked results are ordered by score, highest first, and are the same
/// results: as many, each as often as in the input.
pub proof fn law_ranking_orders_by_score(s: Seq<(BookMetadata, usize)>)
    ensures
        ranked(s).len() == s.len(),
        ranked(s).to_multiset() == s.to_multiset(),
        forall|i: int, j: int| 0 <= i < j < ranked(s).len() ==> #[trigger] ranked(s)[i].1 >= #[trigger] ranked(s)[j].1,
    decreases s.len(),
{
    broadcast use vstd::seq_lib::group_to_multiset_ensures;
    if s.len() > 0 {
        let init = s.drop_last();
        let x = s.last();
        law_ranking_orders_by_score(init);
        let r = ranked(init);
        lemma_rank_pos(r, x.1);
        let pos = rank_pos(r, x.1) as int;
        let t = r.insert(pos, x);
        assert(t == ranked(s));
        assert forall|i: int, j: int| 0 <= i < j < t.len() implies #[trigger] t[i].1 >= #[trigger] t[j].1 by {
            if j < pos {
                assert(t[i] == r[i] && t[j] == r[j]);
            } else if j == pos {
                assert(t[i] == r[i]);
            } else if i < pos {
                assert(t[i] == r[i] && t[j] == r[j - 1]);
                if pos < r.len() {
                    assert(r[pos].1 >= r[j - 1].1 || pos == j - 1);
                }
            } else if i == pos {
                assert(t[j] == r[j - 1]);
                assert(r[pos].1 >= r[j - 1].1 || pos == j - 1);
            } else {
                assert(t[i] == r[i - 1] && t[j] == r[j - 1]);
            }
        }
        assert(s =~= init.push(x));
        assert(t.to_multiset() == r.to_multiset().insert(x));
        assert(s.to_multiset() == init.to_multiset().insert(x));
    }
}

/// The tokens kept from a list of matched words are distinct, each longer
/// than two bytes and each one of the words, and every such word is kept.
pub proof fn law_document_tokens(ms: Seq<Seq<char>>)
    ensures
        distinct_long_words(ms).no_duplicates(),
        forall|k: int|
            0 <= k < distinct_long_words(ms).len() ==> byte_len(#[trigger] distinct_long_words(ms)[k])
                > 2 && ms.contains(distinct_long_words(ms)[k]),
        forall|w: Seq<char>| ms.contains(w) && byte_len(w) > 2 ==> #[trigger] distinct_long_words(ms).contains(w),
    decreases ms.len(),
{
    if ms.len() > 0 {
        let init = ms.drop_last();
        law_document_tokens(init);
        let rest = distinct_long_words(init);
        let w = ms.last();
        assert forall|x: Seq<char>| init.contains(x) implies ms.contains(x) by {
            let i = choose|i: int| 0 <= i < init.len() && init[i] == x;
            assert(ms[i] == x);
        }
        assert(ms[ms.len() - 1] == w);
        assert forall|x: Seq<char>| ms.contains(x) && byte_len(x) > 2 implies #[trigger] distinct_long_words(
            ms,
        ).contains(x) by {
            let i = choose|i: int| 0 <= i < ms.len() && ms[i] == x;
            if i < ms.len() - 1 {
                assert(init[i] == x);
                assert(rest.contains(x));
                let j = choose|j: int| 0 <= j < rest.len() && rest[j] == x;
                if byte_len(w) > 2 && !rest.contains(w) {
                    assert(rest.push(w)[j] == x);
                }
            } else {
                if !rest.contains(w) {
                    assert(rest.push(w)[rest.len() as int] == w);
                }
            }
        }
    }
}

/// A document's tokens are distinct words of the lowercased text, each
/// longer than two bytes, and every such word of the text is a token.
pub proof fn law_text_tokens_distinct_and_long(text: Seq<char>)
    ensures
        text_tokens(text).no_duplicates(),
        forall|k: int| 0 <= k < text_tokens(text).len() ==> byte_len(#[trigger] text_tokens(text)[k]) > 2,
        forall|w: Seq<char>|
            regex_matches(WORD_PATTERN@, unicode_lowercase(text)).contains(w) && byte_len(w) > 2
                ==> #[trigger] text_tokens(text).contains(w),
{
    law_document_tokens(regex_matches(WORD_PATTERN@, unicode_lowercase(text)));
}

/// Matching ignores case: two queries, or two texts, that are the same
/// once lowercased give the same tokens.
pub proof fn law_tokens_ignore_case(q1: Seq<char>, q2: Seq<char>, t1: Seq<char>, t2: Seq<char>)
    requires
        unicode_lowercase(q1) == unicode_lowercase(q2),
        unicode_lowercase(t1) == unicode_lowercase(t2),
    ensures
        query_tokens(q1) == query_tokens(q2),
        text_tokens(t1) == text_tokens(t2),
{
}

/// For ASCII text, the case of its letters does not matter: the text in
/// upper case or in lower case is ASCII, lowers to the same string, and so
/// gives the same query tokens and the same document tokens.
pub proof fn law_ascii_case_is_ignored(s: Seq<char>)
    requires
        is_ascii_str(s),
    ensures
        is_ascii_str(ascii_upper(s)),
        is_ascii_str(ascii_lower(s)),
        ascii_lower(ascii_upper(s)) == ascii_lower(s),
        ascii_lower(ascii_lower(s)) == ascii_lower(s),
        ascii_query_tokens(ascii_upper(s)) == ascii_query_tokens(s),
        ascii_query_tokens(ascii_lower(s)) == ascii_query_tokens(s),
        distinct_long_words(regex_matches(WORD_PATTERN@, ascii_lower(ascii_upper(s))))
            == distinct_long_words(regex_matches(WORD_PATTERN@, ascii_lower(s))),
{
    assert(ascii_lower(ascii_upper(s)) =~= ascii_lower(s));
    assert(ascii_lower(ascii_lower(s)) =~= ascii_lower(s));
}

/// Query tokens (`query_tokens` applies this to the white-space separated
/// words of the lowercased query) keep the order of the words: each token
/// is a word with its non-alphanumeric ends trimmed, and is longer than two
/// bytes.
pub proof fn law_query_tokens(words: Seq<Seq<char>>)
    ensures
        query_words(words).len() <= words.len(),
        forall|k: int| 0 <= k < query_words(words).len() ==> byte_len(#[trigger] query_words(words)[k]) > 2,
        forall|k: int|
            #![trigger query_words(words)[k]]
            0 <= k < query_words(words).len() ==> exists|i: int|
                0 <= i < words.len() && #[trigger] trim_non_alphanumeric(words[i]) == query_words(words)[k],
    decreases words.len(),
{
    if words.len() > 0 {
        let init = words.drop_last();
        law_query_tokens(init);
        let rest = query_words(init);
        assert forall|k: int| #![trigger query_words(words)[k]] 0 <= k < query_words(words).len() implies exists|i: int|
            0 <= i < words.len() && #[trigger] trim_non_alphanumeric(words[i]) == query_words(words)[k] by {
            if k < rest.len() {
                let i = choose|i: int|
                    0 <= i < init.len() && #[trigger] trim_non_alphanumeric(init[i]) == rest[k];
                assert(words[i] == init[i]);
            } else {
                assert(words[words.len() - 1] == words.last());
            }
        }
    }
}

} // verus!
