//! Regular-expression matching, done by the `regex` crate.
use vstd::prelude::*;

verus! {

/// What `regex::Regex::new(pattern)` followed by `is_match(text)` gives:
/// `None` where the pattern does not compile, else whether it matches
/// somewhere in `text`.
pub uninterp spec fn regex_match_result(pattern: Seq<char>, text: Seq<char>) -> Option<bool>;

/// What `regex::Regex::new(pattern)` followed by `replace(text, rep)` gives:
/// `None` where the pattern does not compile, else `text` with its leftmost
/// match replaced by `rep`.
pub uninterp spec fn regex_replace_result(pattern: Seq<char>, text: Seq<char>, rep: Seq<char>) -> Option<Seq<char>>;

/// White space as the `regex` crate's `\s` reads it with Unicode on: the
/// characters of the Unicode `White_Space` property.
pub open spec fn is_white_space(c: char) -> bool {
    let n = c as u32;
    ||| 0x9 <= n <= 0xd
    ||| n == 0x20
    ||| n == 0x85
    ||| n == 0xa0
    ||| n == 0x1680
    ||| 0x2000 <= n <= 0x200a
    ||| n == 0x2028
    ||| n == 0x2029
    ||| n == 0x202f
    ||| n == 0x205f
    ||| n == 0x3000
}

/// `text` opens with `{` after nothing but white space.
pub open spec fn opens_with_brace(text: Seq<char>) -> bool {
    exists|i: int|
        0 <= i < text.len() && #[trigger] text[i] == '{' && forall|j: int|
            0 <= j < i ==> is_white_space(#[trigger] text[j])
}

/// `text` with a leading `%40` turned into `@`.
pub open spec fn at_sign_restored(text: Seq<char>) -> Seq<char> {
    if "%40"@.is_prefix_of(text) {
        "@"@ + text.skip(3)
    } else {
        text
    }
}

/// Compiles `pattern` with `regex::Regex::new` and asks `Regex::is_match`
/// about `text`. The result is named `regex_match_result` of the two texts.
/// For the pattern `^\s*\{` it is stated: the pattern compiles, and it
/// matches exactly where `text` opens with `{` after white space (`^` holds
/// only at the start, `\s` is Unicode white space).
#[verifier::external_body]
pub fn regex_is_match(pattern: &str, text: &str) -> (r: Option<bool>)
    ensures
        r == regex_match_result(pattern@, text@),
        pattern@ == "^\\s*\\{"@ ==> r == Some(opens_with_brace(text@)),
{
    match regex::Regex::new(pattern) {
        Ok(re) => Some(re.is_match(text)),
        Err(_) => None,
    }
}

/// Compiles `pattern` with `regex::Regex::new` and replaces its leftmost
/// match in `text` by `rep` with `Regex::replace`. The result is named
/// `regex_replace_result` of the three texts. For the pattern `^%40` with
/// the replacement `@` (which holds no `$`) it is stated: the pattern
/// compiles, and a leading `%40` is replaced by `@`, nothing else changing.
#[verifier::external_body]
pub fn regex_replace(pattern: &str, text: &str, rep: &str) -> (r: Option<String>)
    ensures
        match r {
            Some(s) => regex_replace_result(pattern@, text@, rep@) == Some(s@),
            None => regex_replace_result(pattern@, text@, rep@) is None,
        },
        pattern@ == "^%40"@ && rep@ == "@"@ ==> r is Some,
        r matches Some(s) ==> (pattern@ == "^%40"@ && rep@ == "@"@ ==> s@ == at_sign_restored(text@)),
{
    match regex::Regex::new(pattern) {
        Ok(re) => Some(re.replace(text, rep).into_owned()),
        Err(_) => None,
    }
}

} // verus!
