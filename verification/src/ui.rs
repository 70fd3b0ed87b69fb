//! The dashboard proxy's upstream URLs.
//!
//! The dashboard forwards browser requests to a cluster node: the node the
//! request names, or else the configured default. The address is
//! normalized to an `http://` or `https://` URL without trailing slashes.
//! A search is forwarded with its query percent-encoded and a result limit
//! (five unless the request gives one).

use vstd::prelude::*;
use vstd::utf8::encode_utf8;

use crate::sys::push_char;
use crate::text::{chars_of, is_white_space, string_of, white_space};


verus! {

/// `s` without white space at its start.
pub open spec fn trim_ws_start(s: Seq<char>) -> Seq<char>
    decreases s.len(),
{
    if s.len() > 0 && is_white_space(s[0]) {
        trim_ws_start(s.drop_first())
    } else {
        s
    }
}

/// `s` without white space at its end.
pub open spec fn trim_ws_end(s: Seq<char>) -> Seq<char>
    decreases s.len(),
{
    if s.len() > 0 && is_white_space(s.last()) {
        trim_ws_end(s.drop_last())
    } else {
        s
    }
}

/// `s` without white space at either end (what `str::trim` returns).
pub open spec fn trim_ws(s: Seq<char>) -> Seq<char> {
    trim_ws_end(trim_ws_start(s))
}

/// `s` without its trailing slashes (what `trim_end_matches('/')` returns).
pub open spec fn trim_slashes(s: Seq<char>) -> Seq<char>
    decreases s.len(),
{
    if s.len() > 0 && s.last() == '/' {
        trim_slashes(s.drop_last())
    } else {
        s
    }
}

/// The scheme prefix `http://`.
pub open spec fn http_prefix() -> Seq<char> {
    seq!['h', 't', 't', 'p', ':', '/', '/']
}

/// The scheme prefix `https://`.
pub open spec fn https_prefix() -> Seq<char> {
    seq!['h', 't', 't', 'p', 's', ':', '/', '/']
}

/// Whether `s` starts with `p`.
pub open spec fn starts_with(s: Seq<char>, p: Seq<char>) -> bool {
    p.len() <= s.len() && s.take(p.len() as int) == p
}

/// The upstream URL for a request: the requested node, or the default; a
/// blank choice falls back to the default as it is; otherwise the choice
/// is trimmed, given `http://` unless it names a scheme, and stripped of
/// trailing slashes.
pub open spec fn resolved_url(default_url: Seq<char>, override_url: Option<Seq<char>>) -> Seq<char> {
    let candidate = match override_url {
        Some(u) => u,
        None => default_url,
    };
    let trimmed = trim_ws(candidate);
    if trimmed.len() == 0 {
        default_url
    } else {
        let normalized = if starts_with(trimmed, http_prefix()) || starts_with(trimmed, https_prefix()) {
            trimmed
        } else {
            http_prefix() + trimmed
        };
        trim_slashes(normalized)
    }
}

proof fn lemma_trim_ws_start_skip(s: Seq<char>, a: int)
    requires
        0 <= a <= s.len(),
        forall|k: int| 0 <= k < a ==> is_white_space(#[trigger] s[k]),
    ensures
        trim_ws_start(s) == trim_ws_start(s.skip(a)),
    decreases a,
{
    if a > 0 {
        assert forall|k: int| 0 <= k < a - 1 implies is_white_space(#[trigger] s.drop_first()[k]) by {
            assert(s.drop_first()[k] == s[k + 1]);
        }
        lemma_trim_ws_start_skip(s.drop_first(), a - 1);
        assert(s.drop_first().skip(a - 1) =~= s.skip(a));
    } else {
        assert(s.skip(0) =~= s);
    }
}

proof fn lemma_trim_ws_end_take(s: Seq<char>, b: int)
    requires
        0 <= b <= s.len(),
        forall|k: int| b <= k < s.len() ==> is_white_space(#[trigger] s[k]),
    ensures
        trim_ws_end(s) == trim_ws_end(s.take(b)),
    decreases s.len() - b,
{
    if b < s.len() {
        assert forall|k: int| b <= k < s.drop_last().len() implies is_white_space(#[trigger] s.drop_last()[k]) by {
            assert(s.drop_last()[k] == s[k]);
        }
        lemma_trim_ws_end_take(s.drop_last(), b);
        assert(s.drop_last().take(b) =~= s.take(b));
    } else {
        assert(s.take(b) =~= s);
    }
}

proof fn lemma_trim_slashes_take(s: Seq<char>, b: int)
    requires
        0 <= b <= s.len(),
        forall|k: int| b <= k < s.len() ==> #[trigger] s[k] == '/',
    ensures
        trim_slashes(s) == trim_slashes(s.take(b)),
    decreases s.len() - b,
{
    if b < s.len() {
        assert forall|k: int| b <= k < s.drop_last().len() implies #[trigger] s.drop_last()[k] == '/' by {
            assert(s.drop_last()[k] == s[k]);
        }
        lemma_trim_slashes_take(s.drop_last(), b);
        assert(s.drop_last().take(b) =~= s.take(b));
    } else {
        assert(s.take(b) =~= s);
    }
}

/// The characters of `s` without white space at either end.
fn trimmed_chars(s: &str) -> (r: Vec<char>)
    ensures
        r@ == trim_ws(s@),
{
    let cs = chars_of(s);
    let n = cs.len();
    let mut a: usize = 0;
    while a < n && white_space(cs[a])
        invariant
            cs@ == s@,
            n == cs@.len(),
            a <= n,
            forall|k: int| 0 <= k < a ==> is_white_space(#[trigger] cs@[k]),
        decreases n - a,
    {
        a = a + 1;
    }
    proof {
        lemma_trim_ws_start_skip(cs@, a as int);
        if a < n {
            assert(cs@.skip(a as int)[0] == cs@[a as int]);
        }
    }
    let ghost rest = cs@.skip(a as int);
    let mut b: usize = n;
    while b > a && white_space(cs[b - 1])
        invariant
            cs@ == s@,
            n == cs@.len(),
            a <= b <= n,
            rest == cs@.skip(a as int),
            forall|k: int| b - a <= k < rest.len() ==> is_white_space(#[trigger] rest[k]),
        decreases b - a,
    {
        proof {
            assert(rest[b - 1 - a] == cs@[b - 1]);
        }
        b = b - 1;
    }
    proof {
        lemma_trim_ws_end_take(rest, (b - a) as int);
        if b > a {
            assert(rest.take((b - a) as int).last() == cs@[b - 1]);
        }
        assert(rest.take((b - a) as int) =~= cs@.subrange(a as int, b as int));
    }
    let mut r: Vec<char> = Vec::new();
    let mut i = a;
    while i < b
        invariant
            a <= i <= b,
            b <= cs@.len(),
            r@ == cs@.subrange(a as int, i as int),
        decreases b - i,
    {
        r.push(cs[i]);
        proof {
            assert(cs@.subrange(a as int, i + 1) =~= cs@.subrange(a as int, i as int).push(cs@[i as int]));
        }
        i = i + 1;
    }
    r
}

/// Whether `cs` starts with `p`.
fn has_prefix(cs: &Vec<char>, p: &Vec<char>) -> (b: bool)
    ensures
        b == starts_with(cs@, p@),
{
    if p.len() > cs.len() {
        return false;
    }
    let mut i: usize = 0;
    while i < p.len()
        invariant
            p@.len() <= cs@.len(),
            i <= p@.len(),
            cs@.take(i as int) == p@.take(i as int),
        decreases p@.len() - i,
    {
        if cs[i] != p[i] {
            proof {
                assert(cs@.take(p@.len() as int)[i as int] != p@[i as int]);
            }
            return false;
        }
        proof {
            assert(cs@.take(i + 1) =~= cs@.take(i as int).push(cs@[i as int]));
            assert(p@.take(i + 1) =~= p@.take(i as int).push(p@[i as int]));
        }
        i = i + 1;
    }
    proof {
        assert(p@.take(p@.len() as int) =~= p@);
    }
    true
}

/// `s` without its trailing slashes.
pub fn trim_trailing_slashes(s: &str) -> (r: String)
    ensures
        r@ == trim_slashes(s@),
{
    let cs = chars_of(s);
    let mut b = cs.len();
    while b > 0 && cs[b - 1] == '/'
        invariant
            cs@ == s@,
            b <= cs@.len(),
            forall|k: int| b <= k < cs@.len() ==> #[trigger] cs@[k] == '/',
        decreases b,
    {
        b = b - 1;
    }
    proof {
        lemma_trim_slashes_take(cs@, b as int);
        if b > 0 {
            assert(cs@.take(b as int).last() == cs@[b - 1]);
        }
        assert(cs@.take(b as int) =~= cs@.subrange(0, b as int));
    }
    string_of(&cs, 0, b)
}

/// The upstream URL for a dashboard request.
pub fn resolve_node_url(node_url: &str, override_url: Option<String>) -> (r: String)
    ensures
        r@ == resolved_url(
            node_url@,
            match override_url {
                Some(u) => Some(u@),
                None => None,
            },
        ),
{
    let trimmed = match &override_url {
        Some(u) => trimmed_chars(u.as_str()),
        None => trimmed_chars(node_url),
    };
    if trimmed.len() == 0 {
        return node_url.to_owned();
    }
    let http = vec!['h', 't', 't', 'p', ':', '/', '/'];
    let https = vec!['h', 't', 't', 'p', 's', ':', '/', '/'];
    proof {
        assert(http@ =~= http_prefix());
        assert(https@ =~= https_prefix());
    }
    let mut normalized = String::new();
    if !(has_prefix(&trimmed, &http) || has_prefix(&trimmed, &https)) {
        let mut i: usize = 0;
        while i < http.len()
            invariant
                http@ == http_prefix(),
                i <= http@.len(),
                normalized@ == http@.take(i as int),
            decreases http@.len() - i,
        {
            push_char(&mut normalized, http[i]);
            proof {
                assert(http@.take(i + 1) =~= http@.take(i as int).push(http@[i as int]));
            }
            i = i + 1;
        }
        proof {
            assert(http@.take(7) =~= http@);
        }
    }
    let ghost head = normalized@;
    let mut j: usize = 0;
    while j < trimmed.len()
        invariant
            j <= trimmed@.len(),
            normalized@ == head + trimmed@.take(j as int),
        decreases trimmed@.len() - j,
    {
        push_char(&mut normalized, trimmed[j]);
        proof {
            assert(trimmed@.take(j + 1) =~= trimmed@.take(j as int).push(trimmed@[j as int]));
        }
        j = j + 1;
    }
    proof {
        assert(trimmed@.take(trimmed@.len() as int) =~= trimmed@);
        if head.len() == 0 {
            assert(normalized@ =~= trimmed@);
        }
    }
    trim_trailing_slashes(normalized.as_str())
}


/// Results per page of a dashboard search that names no limit.
pub const DEFAULT_SEARCH_LIMIT: usize = 5;

/// Bytes left as they are by URL encoding: ASCII letters and digits and
/// `-`, `.`, `_`, `~`.
pub open spec fn url_safe_byte(b: u8) -> bool {
    (48 <= b <= 57) || (65 <= b <= 90) || (97 <= b <= 122) || b == 45 || b == 46 || b == 95 || b == 126
}

/// The upper-case hexadecimal digit for `d` (below 16).
pub open spec fn hex_digit(d: u8) -> char {
    seq!['0', '1', '2', '3', '4', '5', '6', '7', '8', '9', 'A', 'B', 'C', 'D', 'E', 'F'][d as int]
}

/// A byte, URL-encoded: itself when safe, else `%` and two hex digits.
pub open spec fn url_encoded_byte(b: u8) -> Seq<char> {
    if url_safe_byte(b) {
        seq![b as char]
    } else {
        seq!['%', hex_digit(b / 16), hex_digit(b % 16)]
    }
}

/// A sequence of bytes, URL-encoded.
pub open spec fn url_encoded_bytes(bs: Seq<u8>) -> Seq<char>
    decreases bs.len(),
{
    if bs.len() == 0 {
        Seq::empty()
    } else {
        url_encoded_bytes(bs.drop_last()) + url_encoded_byte(bs.last())
    }
}

/// A string, URL-encoded: each byte of its UTF-8 form, in order.
pub open spec fn url_encoded(s: Seq<char>) -> Seq<char> {
    url_encoded_bytes(encode_utf8(s))
}

/// `urlencoding::encode`: percent-encodes every UTF-8 byte of `s` except
/// ASCII letters, digits and `-`, `_`, `.`, `~`, with upper-case hex digits.
#[verifier::external_body]
fn url_encode(s: &str) -> (r: String)
    ensures
        r@ == url_encoded(s@),
{
    urlencoding::encode(s).into_owned()
}

/// The decimal digit for `d` (below 10).
pub open spec fn decimal_digit(d: nat) -> char {
    seq!['0', '1', '2', '3', '4', '5', '6', '7', '8', '9'][d as int]
}

/// The decimal form of `n`, without leading zeros.
pub open spec fn decimal(n: nat) -> Seq<char>
    decreases n,
{
    if n < 10 {
        seq![decimal_digit(n)]
    } else {
        decimal(n / 10).push(decimal_digit(n % 10))
    }
}

/// The decimal form of `n`.
pub fn decimal_chars(n: usize) -> (r: Vec<char>)
    ensures
        r@ == decimal(n as nat),
    decreases n,
{
    let digits = vec!['0', '1', '2', '3', '4', '5', '6', '7', '8', '9'];
    proof {
        assert(digits@ =~= seq!['0', '1', '2', '3', '4', '5', '6', '7', '8', '9']);
    }
    if n < 10 {
        vec![digits[n]]
    } else {
        let mut r = decimal_chars(n / 10);
        r.push(digits[n % 10]);
        r
    }
}

/// Appends `cs` to `s`.
fn push_all(s: &mut String, cs: &Vec<char>)
    ensures
        final(s)@ == old(s)@ + cs@,
{
    let ghost start = s@;
    let mut i: usize = 0;
    while i < cs.len()
        invariant
            i <= cs@.len(),
            s@ == start + cs@.take(i as int),
        decreases cs@.len() - i,
    {
        push_char(s, cs[i]);
        proof {
            assert(cs@.take(i + 1) =~= cs@.take(i as int).push(cs@[i as int]));
        }
        i = i + 1;
    }
    proof {
        assert(cs@.take(cs@.len() as int) =~= cs@);
    }
}

/// The path and first parameter of a search: `/search?q=`.
pub open spec fn search_path() -> Seq<char> {
    seq!['/', 's', 'e', 'a', 'r', 'c', 'h', '?', 'q', '=']
}

/// The limit parameter of a search: `&limit=`.
pub open spec fn limit_param() -> Seq<char> {
    seq!['&', 'l', 'i', 'm', 'i', 't', '=']
}

/// The URL a dashboard search is forwarded to: the node's search endpoint,
/// the query URL-encoded, and the limit (five when none is given).
pub fn search_proxy_url(node_url: &str, q: &str, limit: Option<usize>) -> (r: String)
    ensures
        r@ == node_url@ + search_path() + url_encoded(q@) + limit_param() + decimal(
            match limit {
                Some(n) => n,
                None => DEFAULT_SEARCH_LIMIT,
            } as nat,
        ),
{
    let mut r = node_url.to_owned();
    let path = vec!['/', 's', 'e', 'a', 'r', 'c', 'h', '?', 'q', '='];
    let param = vec!['&', 'l', 'i', 'm', 'i', 't', '='];
    proof {
        assert(path@ =~= search_path());
        assert(param@ =~= limit_param());
    }
    push_all(&mut r, &path);
    let encoded = url_encode(q);
    let ecs = chars_of(encoded.as_str());
    push_all(&mut r, &ecs);
    push_all(&mut r, &param);
    let n = match limit {
        Some(n) => n,
        None => DEFAULT_SEARCH_LIMIT,
    };
    let ds = decimal_chars(n);
    push_all(&mut r, &ds);
    r
}

} // verus!
