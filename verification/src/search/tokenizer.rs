//! Tokenization of documents and queries.

use vstd::prelude::*;
use vstd::utf8::encode_utf8;

use crate::sys::{
    ascii_alphanumeric, ascii_lower, is_alphanumeric, is_ascii_str, push_char, to_lowercase, unicode_alphanumeric,
    unicode_lowercase,
};
use crate::text::{chars_of, is_white_space, string_of, white_space};

verus! {

#[verifier::external_type_specification]
#[verifier::external_body]
pub struct ExRegex(regex::Regex);

/// The pattern of a document word: a run of ASCII letters between word
/// boundaries.
pub const WORD_PATTERN: &'static str = "\\b[a-zA-Z]+\\b";

/// What `regex::Regex::find_iter` yields, as text, for the regex compiled
/// from `pattern` searching `haystack`: the successive non-overlapping
/// matches, leftmost first. It depends on the two strings alone.
pub uninterp spec fn regex_matches(pattern: Seq<char>, haystack: Seq<char>) -> Seq<Seq<char>>;

/// A compiled pattern together with its source text.
struct CompiledPattern {
    source: String,
    compiled: regex::Regex,
}

/// Compiles the document word pattern with `regex::Regex::new`, which
/// accepts it (so the call does not fail).
#[verifier::external_body]
fn compile_word_pattern(pattern: &str) -> (p: CompiledPattern)
    requires
        pattern@ == WORD_PATTERN@,
    ensures
        p.source@ == pattern@,
{
    CompiledPattern { source: pattern.to_string(), compiled: regex::Regex::new(pattern).unwrap() }
}

/// An ASCII word character, as `\w` matches it: a letter, a digit or `_`.
pub open spec fn ascii_word_char(c: char) -> bool {
    ascii_alphanumeric(c) || c == '_'
}

/// An ASCII letter.
pub open spec fn ascii_letter(c: char) -> bool {
    (65 <= c as int <= 90) || (97 <= c as int <= 122)
}

/// Scanning state after reading `s`: the words found so far, the run of
/// word characters in progress, and whether that run is all letters.
pub open spec fn word_scan(s: Seq<char>) -> (Seq<Seq<char>>, Seq<char>, bool)
    decreases s.len(),
{
    if s.len() == 0 {
        (Seq::empty(), Seq::empty(), true)
    } else {
        let (ws, run, letters) = word_scan(s.drop_last());
        let c = s.last();
        if ascii_word_char(c) {
            (ws, run.push(c), letters && ascii_letter(c))
        } else if run.len() > 0 && letters {
            (ws.push(run), Seq::empty(), true)
        } else {
            (ws, Seq::empty(), true)
        }
    }
}

/// The words of an ASCII text that the word pattern matches: the maximal
/// runs of word characters that consist of letters only, in order (a run
/// with a digit or `_` has no word boundary inside it, so none of its
/// letters match).
pub open spec fn ascii_letter_words(s: Seq<char>) -> Seq<Seq<char>> {
    let (ws, run, letters) = word_scan(s);
    if run.len() > 0 && letters {
        ws.push(run)
    } else {
        ws
    }
}

/// All matches of a compiled pattern in `haystack`, with
/// `regex::Regex::find_iter`, each as an owned string. For the word
/// pattern on ASCII text, where a word boundary lies between a word
/// character (`[0-9A-Za-z_]`) and anything else, these are the runs of
/// letters that make up whole runs of word characters.
#[verifier::external_body]
fn find_matches(p: &CompiledPattern, haystack: &str) -> (r: Vec<String>)
    ensures
        r@.map_values(|s: String| s@) == regex_matches(p.source@, haystack@),
        p.source@ == WORD_PATTERN@ && is_ascii_str(haystack@) ==> r@.map_values(|s: String| s@)
            == ascii_letter_words(haystack@),
{
    p.compiled.find_iter(haystack).map(|m| m.as_str().to_string()).collect()
}

/// The length of a string in UTF-8 bytes, as `str::len` returns it.
pub open spec fn byte_len(w: Seq<char>) -> usize {
    encode_utf8(w).len() as usize
}

/// Document tokens from the matched words: those longer than two bytes,
/// each kept once, in order of first appearance.
pub open spec fn distinct_long_words(ms: Seq<Seq<char>>) -> Seq<Seq<char>>
    decreases ms.len(),
{
    if ms.len() == 0 {
        Seq::empty()
    } else {
        let rest = distinct_long_words(ms.drop_last());
        let w = ms.last();
        if byte_len(w) > 2 && !rest.contains(w) {
            rest.push(w)
        } else {
            rest
        }
    }
}

/// The tokens of a document.
pub open spec fn text_tokens(text: Seq<char>) -> Seq<Seq<char>> {
    distinct_long_words(regex_matches(WORD_PATTERN@, unicode_lowercase(text)))
}

/// Splitting state after reading `s`: the finished words and the word in
/// progress.
pub open spec fn scan_words(s: Seq<char>) -> (Seq<Seq<char>>, Seq<char>)
    decreases s.len(),
{
    if s.len() == 0 {
        (Seq::empty(), Seq::empty())
    } else {
        let (done, cur) = scan_words(s.drop_last());
        let c = s.last();
        if is_white_space(c) {
            if cur.len() > 0 {
                (done.push(cur), Seq::empty())
            } else {
                (done, cur)
            }
        } else {
            (done, cur.push(c))
        }
    }
}

/// The maximal runs of non-white-space characters, in order (what
/// `str::split_whitespace` yields).
pub open spec fn split_whitespace(s: Seq<char>) -> Seq<Seq<char>> {
    let (done, cur) = scan_words(s);
    if cur.len() > 0 {
        done.push(cur)
    } else {
        done
    }
}

/// `w` without its leading non-alphanumeric characters.
pub open spec fn trim_start(w: Seq<char>) -> Seq<char>
    decreases w.len(),
{
    if w.len() > 0 && !unicode_alphanumeric(w[0]) {
        trim_start(w.drop_first())
    } else {
        w
    }
}

/// `w` without its trailing non-alphanumeric characters.
pub open spec fn trim_end(w: Seq<char>) -> Seq<char>
    decreases w.len(),
{
    if w.len() > 0 && !unicode_alphanumeric(w.last()) {
        trim_end(w.drop_last())
    } else {
        w
    }
}

/// `w` without non-alphanumeric characters at either end.
pub open spec fn trim_non_alphanumeric(w: Seq<char>) -> Seq<char> {
    trim_end(trim_start(w))
}

/// Query tokens from the words of a query: each word trimmed of
/// non-alphanumeric characters at both ends, kept when what is left is
/// longer than two bytes.
pub open spec fn query_words(words: Seq<Seq<char>>) -> Seq<Seq<char>>
    decreases words.len(),
{
    if words.len() == 0 {
        Seq::empty()
    } else {
        let rest = query_words(words.drop_last());
        let w = words.last();
        if byte_len(trim_non_alphanumeric(w)) > 2 {
            rest.push(trim_non_alphanumeric(w))
        } else {
            rest
        }
    }
}

/// The tokens of a query.
pub open spec fn query_tokens(query: Seq<char>) -> Seq<Seq<char>> {
    query_words(split_whitespace(unicode_lowercase(query)))
}

/// The tokens of an ASCII query: those of its words once its letters are
/// in lower case.
pub open spec fn ascii_query_tokens(query: Seq<char>) -> Seq<Seq<char>> {
    query_words(split_whitespace(ascii_lower(query)))
}

/// The views of a sequence of strings.
pub open spec fn views(v: Seq<String>) -> Seq<Seq<char>> {
    v.map_values(|s: String| s@)
}

/// Whether `v` holds a string equal to `w`.
pub(crate) fn contains_string(v: &Vec<String>, w: &String) -> (b: bool)
    ensures
        b == views(v@).contains(w@),
{
    let n = v.len();
    let mut i: usize = 0;
    while i < n
        invariant
            n == v@.len(),
            i <= n,
            forall|j: int| 0 <= j < i ==> v@[j]@ != w@,
        decreases n - i,
    {
        if v[i] == *w {
            proof {
                assert(views(v@)[i as int] == w@);
            }
            return true;
        }
        i = i + 1;
    }
    proof {
        if views(v@).contains(w@) {
            let j = choose|j: int| 0 <= j < views(v@).len() && views(v@)[j] == w@;
            assert(v@[j]@ == w@);
        }
    }
    false
}

/// Tokenizes a document for indexing: lowercases it, takes the runs of
/// ASCII letters between word boundaries, drops words of two bytes or
/// fewer, and keeps each remaining word once, in order of first
/// appearance.
pub fn tokenize_text(text: &str) -> (tokens: Vec<String>)
    ensures
        views(tokens@) == text_tokens(text@),
        is_ascii_str(text@) ==> views(tokens@) == distinct_long_words(
            regex_matches(WORD_PATTERN@, ascii_lower(text@)),
        ),
        is_ascii_str(text@) ==> views(tokens@) == distinct_long_words(ascii_letter_words(ascii_lower(text@))),
{
    let pattern = compile_word_pattern(WORD_PATTERN);
    let lowered = to_lowercase(text);
    proof {
        if is_ascii_str(text@) {
            assert forall|i: int| 0 <= i < lowered@.len() implies (#[trigger] lowered@[i] as int) < 128 by {
                assert((text@[i] as int) < 128);
            }
        }
    }
    let matches = find_matches(&pattern, lowered.as_str());
    document_tokens(&matches)
}

/// The tokens of a document from the words the pattern matched: those
/// longer than two bytes, each kept once, in order of first appearance.
pub fn document_tokens(matches: &Vec<String>) -> (tokens: Vec<String>)
    ensures
        views(tokens@) == distinct_long_words(views(matches@)),
{
    let ghost ms = views(matches@);
    let mut tokens: Vec<String> = Vec::new();
    let n = matches.len();
    let mut i: usize = 0;
    while i < n
        invariant
            n == matches@.len(),
            ms == views(matches@),
            i <= n,
            views(tokens@) == distinct_long_words(ms.take(i as int)),
        decreases n - i,
    {
        let w = &matches[i];
        let long = w.as_str().len() > 2;
        proof {
            assert(ms.take(i + 1).drop_last() =~= ms.take(i as int));
            assert(ms.take(i + 1).last() == w@);
        }
        if long && !contains_string(&tokens, w) {
            let ghost before = tokens@;
            tokens.push(w.clone());
            proof {
                assert(views(tokens@) =~= views(before).push(w@));
            }
        }
        i = i + 1;
    }
    proof {
        assert(ms.take(n as int) =~= ms);
    }
    tokens
}

/// Splits `s` into its maximal runs of non-white-space characters.
pub fn split_words(s: &str) -> (words: Vec<String>)
    ensures
        views(words@) == split_whitespace(s@),
{
    let cs = chars_of(s);
    let mut done: Vec<String> = Vec::new();
    let mut cur = String::new();
    let n = cs.len();
    let mut i: usize = 0;
    while i < n
        invariant
            cs@ == s@,
            n == cs@.len(),
            i <= n,
            (views(done@), cur@) == scan_words(cs@.take(i as int)),
        decreases n - i,
    {
        let c = cs[i];
        proof {
            assert(cs@.take(i + 1).drop_last() =~= cs@.take(i as int));
            assert(cs@.take(i + 1).last() == c);
        }
        if white_space(c) {
            if cur.as_str().unicode_len() > 0 {
                let ghost before = done@;
                let finished = cur;
                done.push(finished);
                cur = String::new();
                proof {
                    assert(views(done@) =~= views(before).push(finished@));
                }
            }
        } else {
            push_char(&mut cur, c);
        }
        i = i + 1;
    }
    proof {
        assert(cs@.take(n as int) =~= cs@);
    }
    if cur.as_str().unicode_len() > 0 {
        let ghost before = done@;
        let last = cur;
        done.push(last);
        proof {
            assert(views(done@) =~= views(before).push(last@));
        }
    }
    done
}

proof fn lemma_trim_start_skip(w: Seq<char>, a: int)
    requires
        0 <= a <= w.len(),
        forall|k: int| 0 <= k < a ==> !unicode_alphanumeric(#[trigger] w[k]),
    ensures
        trim_start(w) == trim_start(w.skip(a)),
    decreases a,
{
    if a > 0 {
        assert(!unicode_alphanumeric(w[0]));
        assert forall|k: int| 0 <= k < a - 1 implies !unicode_alphanumeric(#[trigger] w.drop_first()[k]) by {
            assert(w.drop_first()[k] == w[k + 1]);
        }
        lemma_trim_start_skip(w.drop_first(), a - 1);
        assert(w.drop_first().skip(a - 1) =~= w.skip(a));
    } else {
        assert(w.skip(0) =~= w);
    }
}

proof fn lemma_trim_end_take(w: Seq<char>, b: int)
    requires
        0 <= b <= w.len(),
        forall|k: int| b <= k < w.len() ==> !unicode_alphanumeric(#[trigger] w[k]),
    ensures
        trim_end(w) == trim_end(w.take(b)),
    decreases w.len() - b,
{
    if b < w.len() {
        assert(!unicode_alphanumeric(w.last()));
        assert forall|k: int| b <= k < w.drop_last().len() implies !unicode_alphanumeric(
            #[trigger] w.drop_last()[k],
        ) by {
            assert(w.drop_last()[k] == w[k]);
        }
        lemma_trim_end_take(w.drop_last(), b);
        assert(w.drop_last().take(b) =~= w.take(b));
    } else {
        assert(w.take(b) =~= w);
    }
}

/// `word` without non-alphanumeric characters at either end.
pub fn trim_word(word: &str) -> (t: String)
    ensures
        t@ == trim_non_alphanumeric(word@),
{
    let cs = chars_of(word);
    let n = cs.len();
    let mut a: usize = 0;
    while a < n && !is_alphanumeric(cs[a])
        invariant
            cs@ == word@,
            n == cs@.len(),
            a <= n,
            forall|k: int| 0 <= k < a ==> !unicode_alphanumeric(#[trigger] cs@[k]),
        decreases n - a,
    {
        a = a + 1;
    }
    proof {
        lemma_trim_start_skip(cs@, a as int);
        if a < n {
            assert(cs@.skip(a as int)[0] == cs@[a as int]);
        }
        assert(trim_start(cs@) == cs@.skip(a as int));
    }
    let ghost rest = cs@.skip(a as int);
    let mut b: usize = n;
    while b > a && !is_alphanumeric(cs[b - 1])
        invariant
            cs@ == word@,
            n == cs@.len(),
            a <= b <= n,
            rest == cs@.skip(a as int),
            forall|k: int| b - a <= k < rest.len() ==> !unicode_alphanumeric(#[trigger] rest[k]),
        decreases b - a,
    {
        proof {
            assert(rest[b - 1 - a] == cs@[b - 1]);
        }
        b = b - 1;
    }
    proof {
        lemma_trim_end_take(rest, (b - a) as int);
        if b > a {
            assert(rest.take((b - a) as int).last() == cs@[b - 1]);
        }
        assert(trim_end(rest.take((b - a) as int)) == rest.take((b - a) as int));
        assert(rest.take((b - a) as int) =~= cs@.subrange(a as int, b as int));
    }
    string_of(&cs, a, b)
}

/// Tokenizes a search query: lowercases it, splits it at white space, drops
/// words of two bytes or fewer, trims non-alphanumeric characters from both
/// ends of each remaining word, and drops words that become empty. Order
/// and repetitions are kept.
pub fn tokenize_query(query: &str) -> (tokens: Vec<String>)
    ensures
        views(tokens@) == query_tokens(query@),
        is_ascii_str(query@) ==> views(tokens@) == ascii_query_tokens(query@),
{
    let lowered = to_lowercase(query);
    let words = split_words(lowered.as_str());
    let ghost ws = views(words@);
    let mut tokens: Vec<String> = Vec::new();
    let n = words.len();
    let mut i: usize = 0;
    while i < n
        invariant
            n == words@.len(),
            ws == views(words@),
            i <= n,
            views(tokens@) == query_words(ws.take(i as int)),
        decreases n - i,
    {
        let w = &words[i];
        proof {
            assert(ws.take(i + 1).drop_last() =~= ws.take(i as int));
            assert(ws.take(i + 1).last() == w@);
        }
        let t = trim_word(w.as_str());
        if t.as_str().len() > 2 {
            let ghost before = tokens@;
            tokens.push(t);
            proof {
                assert(views(tokens@) =~= views(before).push(trim_non_alphanumeric(w@)));
            }
        }
        i = i + 1;
    }
    proof {
        assert(ws.take(n as int) =~= ws);
    }
    tokens
}

} // verus!
