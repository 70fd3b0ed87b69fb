//! Adding a book to a postings list.

use vstd::prelude::*;

use crate::search::tokenizer::views;

verus! {

/// The postings list after indexing `book_id` into it: unchanged if the
/// book is already there, with the book appended otherwise.
pub open spec fn with_posting(list: Seq<Seq<char>>, book_id: Seq<char>) -> Seq<Seq<char>> {
    if list.contains(book_id) {
        list
    } else {
        list.push(book_id)
    }
}

/// Adds `book_id` to a postings list unless it is already there.
pub fn add_posting(book_ids: &mut Vec<String>, book_id: &String)
    ensures
        views(final(book_ids)@) == with_posting(views(old(book_ids)@), book_id@),
{
    let n = book_ids.len();
    let mut i: usize = 0;
    while i < n
        invariant
            n == book_ids@.len(),
            i <= n,
            forall|j: int| 0 <= j < i ==> book_ids@[j]@ != book_id@,
        decreases n - i,
    {
        if book_ids[i] == *book_id {
            proof {
                assert(views(book_ids@)[i as int] == book_id@);
            }
            return;
        }
        i = i + 1;
    }
    proof {
        if views(book_ids@).contains(book_id@) {
            let j = choose|j: int| 0 <= j < views(book_ids@).len() && views(book_ids@)[j] == book_id@;
            assert(book_ids@[j]@ == book_id@);
        }
    }
    let ghost before = book_ids@;
    book_ids.push(book_id.clone());
    proof {
        assert(views(book_ids@) =~= views(before).push(book_id@));
    }
}

/// Indexing a book keeps a postings list free of repetitions, puts the book
/// in it, and indexing the same book again changes nothing.
pub proof fn law_posting_idempotent(list: Seq<Seq<char>>, book_id: Seq<char>)
    requires
        list.no_duplicates(),
    ensures
        with_posting(list, book_id).no_duplicates(),
        with_posting(list, book_id).contains(book_id),
        with_posting(with_posting(list, book_id), book_id) == with_posting(list, book_id),
{
    if !list.contains(book_id) {
        let l2 = list.push(book_id);
        assert(l2[list.len() as int] == book_id);
        assert forall|i: int, j: int| 0 <= i < l2.len() && 0 <= j < l2.len() && i != j implies l2[i] != l2[j] by {
            if i < list.len() && j < list.len() {
                assert(l2[i] == list[i] && l2[j] == list[j]);
            } else if i < list.len() {
                assert(l2[i] == list[i]);
            } else {
                assert(l2[j] == list[j]);
            }
        }
    }
}

/// Indexing a book keeps every book already listed, each in its place,
/// and adds nothing but the book itself, at the end and only when it was
/// not listed yet.
pub proof fn law_posting_keeps_books(list: Seq<Seq<char>>, book_id: Seq<char>)
    ensures
        with_posting(list, book_id).len() == list.len() + if list.contains(book_id) {
            0int
        } else {
            1int
        },
        forall|i: int| 0 <= i < list.len() ==> #[trigger] with_posting(list, book_id)[i] == list[i],
        forall|x: Seq<char>| list.contains(x) ==> #[trigger] with_posting(list, book_id).contains(x),
        forall|x: Seq<char>| #[trigger] with_posting(list, book_id).contains(x) ==> list.contains(x) || x == book_id,
        with_posting(list, book_id).contains(book_id),
{
    let r = with_posting(list, book_id);
    assert forall|x: Seq<char>| list.contains(x) implies #[trigger] r.contains(x) by {
        let i = choose|i: int| 0 <= i < list.len() && list[i] == x;
        assert(r[i] == x);
    }
    assert forall|x: Seq<char>| #[trigger] r.contains(x) implies list.contains(x) || x == book_id by {
        let i = choose|i: int| 0 <= i < r.len() && r[i] == x;
        if i < list.len() {
            assert(list[i] == x);
        }
    }
    if !list.contains(book_id) {
        assert(r[list.len() as int] == book_id);
    }
}

} // verus!
