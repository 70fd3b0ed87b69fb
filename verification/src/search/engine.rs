//! Scoring and ranking.
//!
//! A search looks up the postings (book ids) of every distinct query token,
//! scores each book by the number of distinct query tokens whose postings
//! hold its id, fetches the metadata of the scored books, and ranks the
//! results by score, highest first. The lookups and fetches go over the network; the scoring
//! and the ranking are here.

use vstd::prelude::*;

use crate::search::tokenizer::{contains_string, query_tokens, tokenize_query, views};
use crate::search::types::BookMetadata;

verus! {

/// The postings of all tokens, one after another.
pub open spec fn flatten(ps: Seq<Seq<Seq<char>>>) -> Seq<Seq<char>>
    decreases ps.len(),
{
    if ps.len() == 0 {
        Seq::empty()
    } else {
        flatten(ps.drop_last()) + ps.last()
    }
}

/// Number of occurrences of `x` in `s`.
pub open spec fn occurrences(s: Seq<Seq<char>>, x: Seq<char>) -> nat
    decreases s.len(),
{
    if s.len() == 0 {
        0
    } else {
        occurrences(s.drop_last(), x) + if s.last() == x {
            1nat
        } else {
            0nat
        }
    }
}

/// The position of `x` among the ids of a tally, if it is there.
pub open spec fn tally_index(t: Seq<(Seq<char>, nat)>, x: Seq<char>) -> Option<int>
    decreases t.len(),
{
    if t.len() == 0 {
        None
    } else if t.last().0 == x {
        Some(t.len() - 1)
    } else {
        tally_index(t.drop_last(), x)
    }
}

/// Counting `s` id by id: each distinct id once, in order of first
/// appearance, with its number of occurrences.
pub open spec fn tally(s: Seq<Seq<char>>) -> Seq<(Seq<char>, nat)>
    decreases s.len(),
{
    if s.len() == 0 {
        Seq::empty()
    } else {
        let t = tally(s.drop_last());
        let x = s.last();
        match tally_index(t, x) {
            Some(j) => t.update(j, (x, t[j].1 + 1)),
            None => t.push((x, 1nat)),
        }
    }
}

/// The views of postings lists.
pub open spec fn postings_views(ps: Seq<Vec<String>>) -> Seq<Seq<Seq<char>>> {
    ps.map_values(|v: Vec<String>| v@.map_values(|s: String| s@))
}

/// The views of computed scores.
pub open spec fn score_views(r: Seq<(String, usize)>) -> Seq<(Seq<char>, nat)> {
    r.map_values(|p: (String, usize)| (p.0@, p.1 as nat))
}

proof fn lemma_tally_index(t: Seq<(Seq<char>, nat)>, x: Seq<char>)
    ensures
        match tally_index(t, x) {
            Some(j) => 0 <= j < t.len() && t[j].0 == x,
            None => forall|k: int| 0 <= k < t.len() ==> #[trigger] t[k].0 != x,
        },
    decreases t.len(),
{
    if t.len() > 0 && t.last().0 != x {
        lemma_tally_index(t.drop_last(), x);
        assert forall|k: int| 0 <= k < t.len() - 1 implies #[trigger] t[k].0 == t.drop_last()[k].0 by {}
    }
}

proof fn lemma_tally_index_at(t: Seq<(Seq<char>, nat)>, x: Seq<char>, q: int)
    requires
        0 <= q < t.len(),
        t[q].0 == x,
        forall|r: int| q < r < t.len() ==> #[trigger] t[r].0 != x,
    ensures
        tally_index(t, x) == Some(q),
    decreases t.len(),
{
    if q < t.len() - 1 {
        assert(t.last().0 != x);
        lemma_tally_index_at(t.drop_last(), x, q);
    }
}

/// Each count of a tally is at most the number of ids counted.
proof fn lemma_tally_bounded(s: Seq<Seq<char>>)
    ensures
        forall|k: int| 0 <= k < tally(s).len() ==> #[trigger] tally(s)[k].1 <= s.len(),
        tally(s).len() <= s.len(),
    decreases s.len(),
{
    if s.len() > 0 {
        lemma_tally_bounded(s.drop_last());
        lemma_tally_index(tally(s.drop_last()), s.last());
    }
}

/// Scores books: for the postings of the query tokens, each book id that
/// occurs, once, with the number of its occurrences across all postings.
pub fn score_books(postings: &Vec<Vec<String>>) -> (scores: Vec<(String, usize)>)
    requires
        flatten(postings_views(postings@)).len() <= usize::MAX,
    ensures
        score_views(scores@) == tally(flatten(postings_views(postings@))),
{
    let ghost pv = postings_views(postings@);
    let mut scores: Vec<(String, usize)> = Vec::new();
    let n = postings.len();
    let mut i: usize = 0;
    proof {
        assert(pv.take(0) =~= Seq::<Seq<Seq<char>>>::empty());
    }
    while i < n
        invariant
            n == postings@.len(),
            pv == postings_views(postings@),
            flatten(pv).len() <= usize::MAX,
            i <= n,
            score_views(scores@) == tally(flatten(pv.take(i as int))),
        decreases n - i,
    {
        let list = &postings[i];
        let ghost lv = pv[i as int];
        let ghost base = flatten(pv.take(i as int));
        proof {
            assert(lv == list@.map_values(|s: String| s@));
            assert(pv.take(i + 1).drop_last() =~= pv.take(i as int));
            assert(flatten(pv.take(i + 1)) == base + lv);
            lemma_flatten_prefix(pv, i + 1);
            assert(lv.take(0) =~= Seq::<Seq<char>>::empty());
            assert(base + lv.take(0) =~= base);
        }
        let m = list.len();
        let mut j: usize = 0;
        while j < m
            invariant
                m == list@.len(),
                lv == list@.map_values(|s: String| s@),
                base.len() + lv.len() <= flatten(pv).len(),
                flatten(pv).len() <= usize::MAX,
                j <= m,
                score_views(scores@) == tally(base + lv.take(j as int)),
            decreases m - j,
        {
            let id = &list[j];
            let ghost prefix = base + lv.take(j as int);
            proof {
                assert((base + lv.take(j + 1)).drop_last() =~= prefix);
                assert((base + lv.take(j + 1)).last() == id@);
                lemma_tally_bounded(prefix);
                lemma_tally_index(tally(prefix), id@);
                assert(prefix.len() < flatten(pv).len()) by {
                    assert(prefix.len() == base.len() + j);
                    assert(base.len() + lv.len() <= flatten(pv).len());
                }
            }
            let ghost t = score_views(scores@);
            proof {
                assert(t == tally(prefix));
            }
            let mut k: usize = scores.len();
            let mut hit: Option<usize> = None;
            while k > 0 && hit.is_none()
                invariant
                    t == score_views(scores@),
                    k <= scores@.len(),
                    hit is None ==> forall|q: int| k <= q < scores@.len() ==> #[trigger] t[q].0 != id@,
                    hit matches Some(q) ==> q == k && q < scores@.len() && t[q as int].0 == id@ && forall|r: int|
                        q < r < scores@.len() ==> #[trigger] t[r].0 != id@,
                decreases k,
            {
                k = k - 1;
                if scores[k].0 == *id {
                    hit = Some(k);
                }
            }
            match hit {
                Some(q) => {
                    let c = scores[q].1;
                    proof {
                        lemma_tally_index_at(t, id@, q as int);
                        assert(tally(prefix)[q as int].1 <= prefix.len());
                        assert(t[q as int].1 == c as nat);
                    }
                    let name = scores[q].0.clone();
                    scores.set(q, (name, c + 1));
                    proof {
                        assert(score_views(scores@) =~= t.update(q as int, (id@, t[q as int].1 + 1)));
                    }
                },
                None => {
                    proof {
                        lemma_tally_index(t, id@);
                        if tally_index(t, id@) is Some {
                            let jj = tally_index(t, id@)->0;
                            assert(t[jj].0 == id@);
                        }
                    }
                    scores.push((id.clone(), 1));
                    proof {
                        assert(score_views(scores@) =~= t.push((id@, 1nat)));
                    }
                },
            }
            j = j + 1;
        }
        proof {
            assert(lv.take(m as int) =~= lv);
        }
        i = i + 1;
    }
    proof {
        assert(pv.take(n as int) =~= pv);
    }
    scores
}

proof fn lemma_flatten_prefix(ps: Seq<Seq<Seq<char>>>, i: int)
    requires
        0 <= i <= ps.len(),
    ensures
        flatten(ps.take(i)).len() <= flatten(ps).len(),
    decreases ps.len() - i,
{
    if i < ps.len() {
        lemma_flatten_prefix(ps, i + 1);
        assert(ps.take(i + 1).drop_last() =~= ps.take(i));
        assert(flatten(ps.take(i + 1)) == flatten(ps.take(i)) + ps.take(i + 1).last());
    } else {
        assert(ps.take(i) =~= ps);
    }
}

/// Where a result with `score` goes among ranked results: after every
/// result that scores at least as much.
pub open spec fn rank_pos(r: Seq<(BookMetadata, usize)>, score: usize) -> nat
    decreases r.len(),
{
    if r.len() == 0 {
        0
    } else if r[0].1 < score {
        0
    } else {
        1 + rank_pos(r.drop_first(), score)
    }
}

/// The results ranked by score, highest first; results with equal scores
/// keep their order.
pub open spec fn ranked(s: Seq<(BookMetadata, usize)>) -> Seq<(BookMetadata, usize)>
    decreases s.len(),
{
    if s.len() == 0 {
        s
    } else {
        let r = ranked(s.drop_last());
        r.insert(rank_pos(r, s.last().1) as int, s.last())
    }
}

/// The distinct ids of `s`, in order of first appearance.
pub open spec fn dedup(s: Seq<Seq<char>>) -> Seq<Seq<char>>
    decreases s.len(),
{
    if s.len() == 0 {
        s
    } else {
        let r = dedup(s.drop_last());
        if r.contains(s.last()) {
            r
        } else {
            r.push(s.last())
        }
    }
}

/// Each postings list with its repetitions removed.
pub open spec fn distinct_postings(ps: Seq<Seq<Seq<char>>>) -> Seq<Seq<Seq<char>>> {
    ps.map_values(|l: Seq<Seq<char>>| dedup(l))
}

/// Number of lists of `ps` that hold `x`.
pub open spec fn lists_containing(ps: Seq<Seq<Seq<char>>>, x: Seq<char>) -> nat
    decreases ps.len(),
{
    if ps.len() == 0 {
        0
    } else {
        lists_containing(ps.drop_last(), x) + if ps.last().contains(x) {
            1nat
        } else {
            0nat
        }
    }
}

proof fn lemma_push_contains(a: Seq<Seq<char>>, y: Seq<char>)
    ensures
        forall|x: Seq<char>| #[trigger] a.push(y).contains(x) <==> (a.contains(x) || x == y),
{
    assert forall|x: Seq<char>| #[trigger] a.push(y).contains(x) <==> (a.contains(x) || x == y) by {
        if a.push(y).contains(x) {
            let i = choose|i: int| 0 <= i < a.push(y).len() && a.push(y)[i] == x;
            if i < a.len() {
                assert(a[i] == x);
            }
        }
        if a.contains(x) {
            let i = choose|i: int| 0 <= i < a.len() && a[i] == x;
            assert(a.push(y)[i] == x);
        }
        if x == y {
            assert(a.push(y)[a.len() as int] == x);
        }
    }
}

proof fn lemma_dedup_contains(s: Seq<Seq<char>>)
    ensures
        forall|x: Seq<char>| #[trigger] dedup(s).contains(x) <==> s.contains(x),
    decreases s.len(),
{
    if s.len() > 0 {
        let init = s.drop_last();
        let l = s.last();
        lemma_dedup_contains(init);
        assert(s =~= init.push(l));
        lemma_push_contains(init, l);
        lemma_push_contains(dedup(init), l);
    }
}

proof fn lemma_occurrences_concat(a: Seq<Seq<char>>, c: Seq<Seq<char>>, x: Seq<char>)
    ensures
        occurrences(a + c, x) == occurrences(a, x) + occurrences(c, x),
    decreases c.len(),
{
    if c.len() > 0 {
        lemma_occurrences_concat(a, c.drop_last(), x);
        assert((a + c).drop_last() =~= a + c.drop_last());
    }
}

proof fn lemma_occurrences_dedup(s: Seq<Seq<char>>, x: Seq<char>)
    ensures
        occurrences(dedup(s), x) == if s.contains(x) {
            1nat
        } else {
            0nat
        },
    decreases s.len(),
{
    if s.len() > 0 {
        let init = s.drop_last();
        lemma_occurrences_dedup(init, x);
        lemma_dedup_contains(init);
        let r = dedup(init);
        if s.contains(x) && !init.contains(x) {
            let i = choose|i: int| 0 <= i < s.len() && s[i] == x;
            if i < init.len() {
                assert(init[i] == x);
            }
        }
        if init.contains(x) {
            let i = choose|i: int| 0 <= i < init.len() && init[i] == x;
            assert(s[i] == x);
        }
        if !r.contains(s.last()) {
            assert(r.push(s.last()).drop_last() =~= r);
        }
        if s.last() == x {
            assert(s[s.len() - 1] == x);
        }
    }
}

/// Once repetitions within each postings list are removed, the number of
/// times a book occurs across the lists is the number of lists that hold
/// it: with one list per distinct query token, the number of distinct query
/// tokens that match the book.
pub proof fn law_score_counts_matching_terms(ps: Seq<Seq<Seq<char>>>, x: Seq<char>)
    ensures
        occurrences(flatten(distinct_postings(ps)), x) == lists_containing(ps, x),
    decreases ps.len(),
{
    if ps.len() > 0 {
        let init = ps.drop_last();
        law_score_counts_matching_terms(init, x);
        assert(distinct_postings(ps).drop_last() =~= distinct_postings(init));
        assert(distinct_postings(ps).last() == dedup(ps.last()));
        lemma_occurrences_concat(flatten(distinct_postings(init)), dedup(ps.last()), x);
        lemma_occurrences_dedup(ps.last(), x);
    }
}

proof fn lemma_dedup_no_duplicates(s: Seq<Seq<char>>)
    ensures
        dedup(s).no_duplicates(),
    decreases s.len(),
{
    if s.len() > 0 {
        let r = dedup(s.drop_last());
        lemma_dedup_no_duplicates(s.drop_last());
        if !r.contains(s.last()) {
            let q = r.push(s.last());
            assert forall|i: int, j: int| 0 <= i < q.len() && 0 <= j < q.len() && i != j implies q[i] != q[j] by {
                if j == r.len() {
                    assert(r[i] == q[i]);
                } else if i == r.len() {
                    assert(r[j] == q[j]);
                } else {
                    assert(q[i] == r[i] && q[j] == r[j]);
                }
            }
        }
    }
}

/// Whether a term's postings (by `idx`) hold book `x`.
pub open spec fn hits(idx: spec_fn(Seq<char>) -> Seq<Seq<char>>, x: Seq<char>) -> spec_fn(Seq<char>) -> bool {
    |t: Seq<char>| idx(t).contains(x)
}

proof fn lemma_lists_containing_terms(
    terms: Seq<Seq<char>>,
    idx: spec_fn(Seq<char>) -> Seq<Seq<char>>,
    x: Seq<char>,
)
    ensures
        lists_containing(terms.map_values(idx), x) == terms.filter(hits(idx, x)).len(),
    decreases terms.len(),
{
    reveal(Seq::filter);
    if terms.len() > 0 {
        lemma_lists_containing_terms(terms.drop_last(), idx, x);
        assert(terms.map_values(idx).drop_last() =~= terms.drop_last().map_values(idx));
    }
}

/// The terms of a search: the query's tokens, each once, in order of first
/// appearance.
pub fn search_terms(query: &str) -> (r: Vec<String>)
    ensures
        views(r@) == dedup(query_tokens(query@)),
{
    let tokens = tokenize_query(query);
    distinct_ids(&tokens)
}

/// A search scores a book by the number of distinct query terms whose
/// postings hold it: the search terms are distinct, are exactly the query's
/// tokens, and when each term's postings (`idx`) are looked up once, in
/// order, a book's score from `score_terms` (the number of times it occurs
/// once each list's repetitions are removed) is the number of terms that
/// hit it.
pub proof fn law_search_scores_distinct_terms(
    query: Seq<char>,
    idx: spec_fn(Seq<char>) -> Seq<Seq<char>>,
    x: Seq<char>,
)
    ensures
        dedup(query_tokens(query)).no_duplicates(),
        forall|t: Seq<char>| #[trigger] dedup(query_tokens(query)).contains(t) <==> query_tokens(query).contains(t),
        occurrences(flatten(distinct_postings(dedup(query_tokens(query)).map_values(idx))), x)
            == dedup(query_tokens(query)).filter(hits(idx, x)).len(),
{
    let terms = dedup(query_tokens(query));
    lemma_dedup_no_duplicates(query_tokens(query));
    lemma_dedup_contains(query_tokens(query));
    law_score_counts_matching_terms(terms.map_values(idx), x);
    lemma_lists_containing_terms(terms, idx, x);
}

/// The distinct strings of `list`, in order of first appearance.
pub fn distinct_ids(list: &Vec<String>) -> (r: Vec<String>)
    ensures
        views(r@) == dedup(views(list@)),
{
    let ghost lv = views(list@);
    let mut r: Vec<String> = Vec::new();
    let n = list.len();
    let mut i: usize = 0;
    proof {
        assert(lv.take(0) =~= Seq::<Seq<char>>::empty());
    }
    while i < n
        invariant
            n == list@.len(),
            lv == views(list@),
            i <= n,
            views(r@) == dedup(lv.take(i as int)),
        decreases n - i,
    {
        let w = &list[i];
        proof {
            assert(lv.take(i + 1).drop_last() =~= lv.take(i as int));
            assert(lv.take(i + 1).last() == w@);
        }
        if !contains_string(&r, w) {
            let ghost before = r@;
            r.push(w.clone());
            proof {
                assert(views(r@) =~= views(before).push(w@));
            }
        }
        i = i + 1;
    }
    proof {
        assert(lv.take(n as int) =~= lv);
    }
    r
}

/// Scores books by matching terms: each postings list (one per distinct
/// query token) counts once for every book it holds, however often.
pub fn score_terms(postings: &Vec<Vec<String>>) -> (scores: Vec<(String, usize)>)
    requires
        flatten(distinct_postings(postings_views(postings@))).len() <= usize::MAX,
    ensures
        score_views(scores@) == tally(flatten(distinct_postings(postings_views(postings@)))),
{
    let ghost target = distinct_postings(postings_views(postings@));
    let mut lists: Vec<Vec<String>> = Vec::new();
    let n = postings.len();
    let mut i: usize = 0;
    while i < n
        invariant
            n == postings@.len(),
            target == distinct_postings(postings_views(postings@)),
            i <= n,
            postings_views(lists@) == target.take(i as int),
        decreases n - i,
    {
        let d = distinct_ids(&postings[i]);
        let ghost before = lists@;
        lists.push(d);
        proof {
            assert(postings_views(postings@)[i as int] == views(postings@[i as int]@));
            assert(postings_views(lists@) =~= postings_views(before).push(views(d@)));
            assert(target.take(i + 1) =~= target.take(i as int).push(target[i as int]));
        }
        i = i + 1;
    }
    proof {
        assert(target.take(n as int) =~= target);
    }
    score_books(&lists)
}

/// The scored books that have metadata, in the order of the scores: each
/// score paired with its book's metadata (`metas[i]` for `scores[i]`), and
/// the books without metadata left out.
pub open spec fn with_metadata(
    scores: Seq<(String, usize)>,
    metas: Seq<Option<BookMetadata>>,
) -> Seq<(BookMetadata, usize)>
    decreases scores.len(),
{
    if scores.len() == 0 || metas.len() == 0 {
        Seq::empty()
    } else {
        let rest = with_metadata(scores.drop_last(), metas.drop_last());
        match metas.last() {
            Some(m) => rest.push((m, scores.last().1)),
            None => rest,
        }
    }
}

/// Whether a metadata lookup found the book.
pub open spec fn described(o: Option<BookMetadata>) -> bool {
    o is Some
}

/// Every scored book that has metadata is in the results, with its score,
/// and nothing else is: the results are as many as the books found, and
/// each result is the metadata and score of some book found.
pub proof fn law_metadata_keeps_every_described_book(
    scores: Seq<(String, usize)>,
    metas: Seq<Option<BookMetadata>>,
)
    requires
        scores.len() == metas.len(),
    ensures
        forall|i: int|
            0 <= i < metas.len() && #[trigger] metas[i] is Some ==> with_metadata(scores, metas).contains(
                (metas[i]->0, scores[i].1),
            ),
        with_metadata(scores, metas).len() == metas.filter(|o: Option<BookMetadata>| described(o)).len(),
        forall|j: int|
            0 <= j < with_metadata(scores, metas).len() ==> exists|i: int|
                0 <= i < metas.len() && metas[i] == Some(#[trigger] with_metadata(scores, metas)[j].0)
                    && scores[i].1 == with_metadata(scores, metas)[j].1,
    decreases scores.len(),
{
    reveal(Seq::filter);
    if scores.len() > 0 {
        let s0 = scores.drop_last();
        let m0 = metas.drop_last();
        law_metadata_keeps_every_described_book(s0, m0);
        let rest = with_metadata(s0, m0);
        let r = with_metadata(scores, metas);
        let n = metas.len() - 1;
        assert(metas.drop_last().filter(|o: Option<BookMetadata>| described(o)) == m0.filter(
            |o: Option<BookMetadata>| described(o),
        ));
        assert forall|i: int| 0 <= i < metas.len() && #[trigger] metas[i] is Some implies r.contains(
            (metas[i]->0, scores[i].1),
        ) by {
            if i < n {
                assert(m0[i] == metas[i] && s0[i] == scores[i]);
                let j = choose|j: int| 0 <= j < rest.len() && rest[j] == (m0[i]->0, s0[i].1);
                assert(r[j] == rest[j]);
            } else {
                assert(r[rest.len() as int] == (metas[i]->0, scores[i].1));
            }
        }
        assert forall|j: int| 0 <= j < r.len() implies exists|i: int|
            0 <= i < metas.len() && metas[i] == Some(#[trigger] r[j].0) && scores[i].1 == r[j].1 by {
            if j < rest.len() {
                assert(r[j] == rest[j]);
                let i = choose|i: int| 0 <= i < m0.len() && m0[i] == Some(#[trigger] rest[j].0) && s0[i].1 == rest[j].1;
                assert(metas[i] == m0[i] && scores[i] == s0[i]);
            } else {
                assert(metas[n] == Some(r[j].0) && scores[n].1 == r[j].1);
            }
        }
    }
}

/// Pairs each score with its book's metadata, leaving out books that have
/// none.
pub fn attach_metadata(scores: Vec<(String, usize)>, metas: Vec<Option<BookMetadata>>) -> (r: Vec<(BookMetadata, usize)>)
    requires
        scores@.len() == metas@.len(),
    ensures
        r@ == with_metadata(scores@, metas@),
{
    let mut r: Vec<(BookMetadata, usize)> = Vec::new();
    let n = scores.len();
    let mut i: usize = 0;
    while i < n
        invariant
            n == scores@.len(),
            n == metas@.len(),
            i <= n,
            r@ == with_metadata(scores@.take(i as int), metas@.take(i as int)),
        decreases n - i,
    {
        proof {
            assert(scores@.take(i + 1).drop_last() =~= scores@.take(i as int));
            assert(metas@.take(i + 1).drop_last() =~= metas@.take(i as int));
            assert(scores@.take(i + 1).last() == scores@[i as int]);
            assert(metas@.take(i + 1).last() == metas@[i as int]);
        }
        match &metas[i] {
            Some(m) => {
                r.push((m.clone(), scores[i].1));
            },
            None => {},
        }
        i = i + 1;
    }
    proof {
        assert(scores@.take(n as int) =~= scores@);
        assert(metas@.take(n as int) =~= metas@);
    }
    r
}

/// Ranks search results by score, highest first, keeping the order of
/// results with equal scores (a stable sort).
pub fn rank_results(results: Vec<(BookMetadata, usize)>) -> (r: Vec<(BookMetadata, usize)>)
    ensures
        r@ == ranked(results@),
{
    let ghost input = results@;
    let mut rest = results;
    let mut out: Vec<(BookMetadata, usize)> = Vec::new();
    let n = rest.len();
    let mut i: usize = 0;
    while i < n
        invariant
            n == input.len(),
            i <= n,
            rest@ == input.skip(i as int),
            out@ == ranked(input.take(i as int)),
        decreases n - i,
    {
        let x = rest.remove(0);
        proof {
            assert(x == input[i as int]);
            assert(rest@ =~= input.skip(i + 1));
        }
        let ghost ov = out@;
        let mut j: usize = 0;
        proof {
            assert(ov.skip(0) =~= ov);
        }
        while j < out.len() && out[j].1 >= x.1
            invariant
                ov == out@,
                j <= ov.len(),
                rank_pos(ov, x.1) == j + rank_pos(ov.skip(j as int), x.1),
            decreases ov.len() - j,
        {
            proof {
                assert(ov.skip(j as int)[0] == ov[j as int]);
                assert(ov.skip(j as int).drop_first() =~= ov.skip(j + 1));
            }
            j = j + 1;
        }
        proof {
            if j < ov.len() {
                assert(ov.skip(j as int)[0] == ov[j as int]);
            } else {
                assert(ov.skip(j as int).len() == 0);
            }
            assert(input.take(i + 1).drop_last() =~= input.take(i as int));
            assert(input.take(i + 1).last() == x);
        }
        out.insert(j, x);
        i = i + 1;
    }
    proof {
        assert(input.take(n as int) =~= input);
    }
    out
}

} // verus!
