//! Calls into std and outside crates whose results the verified code takes
//! as given. Each item states what it claims of the call it makes; nothing in
//! this file is proved.

use vstd::prelude::*;
use rand::Rng;
use std::hash::{Hash, Hasher};

verus! {

/// `dashmap::DashMap`, a concurrent hash map. Verus sees nothing inside a
/// value of it: what a map of the library holds is given by a name declared
/// beside it, and changed only through the wrappers stated over that name.
#[verifier::external_type_specification]
#[verifier::external_body]
#[verifier::reject_recursive_types(K)]
#[verifier::reject_recursive_types(V)]
#[verifier::reject_recursive_types(S)]
pub struct ExDashMap<K, V, S>(dashmap::DashMap<K, V, S>);

/// A fresh random identifier from `uuid::Uuid::new_v4`, in the hyphenated
/// textual form that `Display` writes (36 characters). Nothing else is
/// claimed: the value is random.
#[verifier::external_body]
pub(crate) fn uuid_v4_string() -> (s: String)
    ensures
        s@.len() == 36,
{
    uuid::Uuid::new_v4().to_string()
}

/// The 64-bit value that std's `DefaultHasher` (created with `new`, whose
/// keys are fixed) computes for a string key. It depends on the key alone:
/// every process built with the same std computes the same value (std does
/// not promise the same value across its releases).
pub uninterp spec fn std_hash(key: Seq<char>) -> u64;

/// Hashes `key` with `std::collections::hash_map::DefaultHasher::new()`,
/// feeding it through `Hash for str` and reading `finish()`.
#[verifier::external_body]
pub(crate) fn hash_str(key: &str) -> (h: u64)
    ensures
        h == std_hash(key@),
{
    let mut hasher = std::collections::hash_map::DefaultHasher::new();
    key.hash(&mut hasher);
    hasher.finish()
}

/// A uniformly chosen index below `n`, from `rand::thread_rng().gen_range(0..n)`
/// (which panics on an empty range, hence `n > 0`). Only the bound is claimed.
#[verifier::external_body]
pub(crate) fn random_below(n: usize) -> (i: usize)
    requires
        n > 0,
    ensures
        i < n,
{
    rand::thread_rng().gen_range(0..n)
}

/// What `str::to_lowercase` returns for a string: the Unicode lowercase
/// mapping of every character (with the final-sigma rule). It depends on
/// the string alone.
pub uninterp spec fn unicode_lowercase(s: Seq<char>) -> Seq<char>;

/// Whether every character is ASCII.
pub open spec fn is_ascii_str(s: Seq<char>) -> bool {
    forall|i: int| 0 <= i < s.len() ==> (#[trigger] s[i] as int) < 128
}

/// An ASCII upper-case letter as lower case; any other character as it is.
pub open spec fn ascii_lower_char(c: char) -> char {
    if 65 <= c as int <= 90 {
        ((c as int) + 32) as char
    } else {
        c
    }
}

/// An ASCII lower-case letter as upper case; any other character as it is.
pub open spec fn ascii_upper_char(c: char) -> char {
    if 97 <= c as int <= 122 {
        ((c as int) - 32) as char
    } else {
        c
    }
}

/// `s` with its ASCII letters in lower case.
pub open spec fn ascii_lower(s: Seq<char>) -> Seq<char> {
    s.map_values(|c: char| ascii_lower_char(c))
}

/// `s` with its ASCII letters in upper case.
pub open spec fn ascii_upper(s: Seq<char>) -> Seq<char> {
    s.map_values(|c: char| ascii_upper_char(c))
}

/// ASCII letters and digits.
pub open spec fn ascii_alphanumeric(c: char) -> bool {
    (48 <= c as int <= 57) || (65 <= c as int <= 90) || (97 <= c as int <= 122)
}

/// `str::to_lowercase`. On an ASCII string the Unicode mapping turns each
/// upper-case letter `A`..`Z` into `a`..`z` and keeps every other
/// character, as `to_ascii_lowercase` does.
#[verifier::external_body]
pub(crate) fn to_lowercase(s: &str) -> (r: String)
    ensures
        r@ == unicode_lowercase(s@),
        is_ascii_str(s@) ==> r@ == ascii_lower(s@),
{
    s.to_lowercase()
}

/// What `char::is_alphanumeric` returns: whether the character has the
/// Unicode `Alphabetic` property or a numeric general category.
pub uninterp spec fn unicode_alphanumeric(c: char) -> bool;

/// `char::is_alphanumeric`. Among ASCII characters it holds of exactly
/// the letters and digits.
#[verifier::external_body]
pub(crate) fn is_alphanumeric(c: char) -> (b: bool)
    ensures
        b == unicode_alphanumeric(c),
        (c as int) < 128 ==> (b == ascii_alphanumeric(c)),
{
    c.is_alphanumeric()
}

/// Milliseconds since the Unix epoch from `SystemTime::now()`, or `None`
/// when the clock reads earlier than the epoch. Nothing is claimed of the
/// value: it is the time.
#[verifier::external_body]
pub(crate) fn system_millis() -> (r: Option<u128>) {
    std::time::SystemTime::now().duration_since(std::time::UNIX_EPOCH).ok().map(|d| d.as_millis())
}

/// Appends one character (`String::push`).
#[verifier::external_body]
pub(crate) fn push_char(s: &mut String, c: char)
    ensures
        final(s)@ == old(s)@.push(c),
{
    s.push(c);
}

} // verus!
