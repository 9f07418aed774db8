//! Text primitives shared by the resolution engine: equality of string
//! slices, ASCII case folding and text-pattern capture.

use vstd::prelude::*;

verus! {

/// The ASCII lower-case form of one character; every other character is
/// left as it is.
pub open spec fn ascii_lower(c: char) -> char {
    if 'A' <= c && c <= 'Z' {
        ((c as u8) + 32) as char
    } else {
        c
    }
}

/// A text with every ASCII upper-case letter replaced by its lower-case form.
pub open spec fn ascii_fold(s: Seq<char>) -> Seq<char> {
    Seq::new(s.len(), |i: int| ascii_lower(s[i]))
}

/// The texts of `parts` in a row, with `sep` between each two.
pub open spec fn join(parts: Seq<Seq<char>>, sep: Seq<char>) -> Seq<char>
    decreases parts.len(),
{
    if parts.len() == 0 {
        Seq::empty()
    } else if parts.len() == 1 {
        parts[0]
    } else {
        join(parts.drop_last(), sep) + sep + parts.last()
    }
}

/// Calls `str`'s `==`, which std documents as equality of the two texts.
#[verifier::external_body]
pub(crate) fn str_eq(a: &str, b: &str) -> (res: bool)
    ensures
        res == (a@ == b@),
{
    a == b
}

/// Calls `str::eq_ignore_ascii_case`, which std documents as comparing the
/// two texts after folding `A`-`Z` to `a`-`z` in both.
#[verifier::external_body]
pub(crate) fn str_eq_ignore_ascii_case(a: &str, b: &str) -> (res: bool)
    ensures
        res == (ascii_fold(a@) == ascii_fold(b@)),
{
    a.eq_ignore_ascii_case(b)
}

/// What `regex::Regex::captures` yields for one capture group: the text that
/// group `group` of `pattern` matched in the first match found in `text`.
/// It is `None` where `pattern` is no valid expression, where `text` holds
/// no match, and where the group took no part in the match.
pub uninterp spec fn captured_group(pattern: Seq<char>, text: Seq<char>, group: nat) -> Option<
    Seq<char>,
>;

/// Compiles `pattern` with `regex::Regex::new`, searches `text` with
/// `Regex::captures` and hands out the text of group `group` of the first
/// match. Nothing is claimed of the result but that it is the one that these
/// calls give for the same three arguments.
#[verifier::external_body]
pub(crate) fn capture_group(pattern: &str, text: &str, group: usize) -> (res: Option<String>)
    ensures
        res is Some == captured_group(pattern@, text@, group as nat) is Some,
        res matches Some(found) ==> captured_group(pattern@, text@, group as nat) == Some(
            found@,
        ),
{
    let compiled = match regex::Regex::new(pattern) {
        Ok(compiled) => compiled,
        Err(_) => return None,
    };
    let captures = match compiled.captures(text) {
        Some(captures) => captures,
        None => return None,
    };
    match captures.get(group) {
        Some(found) => Some(found.as_str().to_string()),
        None => None,
    }
}

} // verus!
