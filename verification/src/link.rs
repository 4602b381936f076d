//! Turning a hyperlink reference into an absolute address.

use url::Url;
use vstd::prelude::*;

verus! {

/// Whether `c` may stand in a reference: a letter, a digit, one of the marks
/// `-._~`, one of the delimiters `:/?#[]@!$&'()*+,;=`, or `%`.
pub open spec fn is_reference_char(c: char) -> bool {
    ||| 'a' <= c <= 'z'
    ||| 'A' <= c <= 'Z'
    ||| '0' <= c <= '9'
    ||| c == '-' || c == '.' || c == '_' || c == '~'
    ||| c == ':' || c == '/' || c == '?' || c == '#' || c == '[' || c == ']' || c == '@'
    ||| c == '!' || c == '$' || c == '&' || c == '\'' || c == '(' || c == ')'
    ||| c == '*' || c == '+' || c == ',' || c == ';' || c == '='
    ||| c == '%'
}

/// Whether every character of `href` may stand in a reference.
pub open spec fn well_formed_reference(href: Seq<char>) -> bool {
    forall|i: int| 0 <= i < href.len() ==> is_reference_char(#[trigger] href[i])
}

fn reference_char(c: char) -> (ok: bool)
    ensures
        ok == is_reference_char(c),
{
    ('a' <= c && c <= 'z') || ('A' <= c && c <= 'Z') || ('0' <= c && c <= '9') || c == '-'
        || c == '.' || c == '_' || c == '~' || c == ':' || c == '/' || c == '?' || c == '#'
        || c == '[' || c == ']' || c == '@' || c == '!' || c == '$' || c == '&' || c == '\''
        || c == '(' || c == ')' || c == '*' || c == '+' || c == ',' || c == ';' || c == '='
        || c == '%'
}

/// Tells whether every character of `href` may stand in a reference.
pub fn is_well_formed_reference(href: &str) -> (ok: bool)
    ensures
        ok == well_formed_reference(href@),
{
    for c in it: href.chars()
        invariant
            it.seq() == href@,
            forall|i: int| 0 <= i < it.index() ==> is_reference_char(#[trigger] href@[i]),
    {
        if !reference_char(c) {
            return false;
        }
    }
    true
}

/// What joining `href` against `base` gives: the absolute address as text,
/// or `None` where `base` is no absolute address or `href` cannot be joined
/// to it.
pub uninterp spec fn joined_reference(base: Seq<char>, href: Seq<char>) -> Option<Seq<char>>;

/// The absolute address that `href` names on the page at `base`: that of
/// joining the two, for a well-formed reference, and none for any other.
pub open spec fn absolute_url(base: Seq<char>, href: Seq<char>) -> Option<Seq<char>> {
    if well_formed_reference(href) {
        joined_reference(base, href)
    } else {
        None
    }
}

/// Joins through the `url` crate: `Url::parse` on `base_url`, `Url::join` of
/// `href` on what it gave, and the joined address as text
/// (`String::from(Url)`). An error of either call gives `None`. Nothing here
/// is proved; the contract claims only that the result is determined by the
/// two texts.
#[verifier::external_body]
fn join_reference(base_url: &str, href: &str) -> (joined: Option<String>)
    ensures
        joined.deep_view() == joined_reference(base_url@, href@),
{
    match Url::parse(base_url) {
        Ok(base) => match base.join(href) {
            Ok(url) => Some(String::from(url)),
            Err(_) => None,
        },
        Err(_) => None,
    }
}

/// Resolves the reference `href`, found on the page at `base_url`, to an
/// absolute address. A reference that is not well formed resolves to
/// nothing, and so does one that cannot be joined to `base_url`.
pub fn make_absolute_url(base_url: &str, href: &str) -> (absolute: Option<String>)
    ensures
        absolute.deep_view() == absolute_url(base_url@, href@),
{
    if is_well_formed_reference(href) {
        join_reference(base_url, href)
    } else {
        None
    }
}

} // verus!
