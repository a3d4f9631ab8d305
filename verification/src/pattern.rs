//! Regular expressions, through the `regex` crate.
//!
//! What a regular expression accepts is the `regex` crate's business; the
//! library only names the results of its calls and relies on nothing else
//! about them.
use vstd::prelude::*;

verus! {

#[verifier::external_type_specification]
#[verifier::external_body]
pub struct ExRegex(regex::Regex);

/// Whether `regex::Regex::new` accepts `pattern` (it refuses invalid
/// patterns and ones whose compiled form exceeds its size limit).
pub uninterp spec fn regex_compiles(pattern: Seq<char>) -> bool;

/// Whether the regular expression `pattern` matches somewhere in
/// `haystack` (`regex::Regex::is_match`).
pub uninterp spec fn regex_is_match(pattern: Seq<char>, haystack: Seq<char>) -> bool;

/// The text of capture group `group` in the leftmost-first match of
/// `pattern` in `haystack`, if there is a match and the group took part in
/// it (`regex::Regex::captures`, then `Captures::get`).
pub uninterp spec fn regex_capture(pattern: Seq<char>, haystack: Seq<char>, group: nat) -> Option<
    Seq<char>,
>;

/// `haystack` with the leftmost-first match of `pattern` replaced by
/// `replacement`, in which `$` group references such as `$1` or `${name}`
/// are first expanded from that match (`regex::Regex::replace`).
pub uninterp spec fn regex_replace(
    pattern: Seq<char>,
    haystack: Seq<char>,
    replacement: Seq<char>,
) -> Seq<char>;

/// A regular expression that the `regex` crate refused to compile.
#[derive(Debug, Clone, Copy, PartialEq, Eq, Structural)]
pub struct InvalidPattern;

/// A compiled regular expression together with the pattern it was compiled
/// from. Only `compile` makes one, so the two always belong together.
pub struct Pattern {
    source: String,
    regex: regex::Regex,
}

impl View for Pattern {
    type V = Seq<char>;

    closed spec fn view(&self) -> Seq<char> {
        self.source@
    }
}

/// `regex::Regex::new`: compiles `pattern`, or gives `None` where the
/// crate refuses it. Claims that the outcome is a function of the pattern
/// alone, and that the result remembers its pattern.
#[verifier::external_body]
pub(crate) fn compile(pattern: &str) -> (r: Option<Pattern>)
    ensures
        r is Some <==> regex_compiles(pattern@),
        r matches Some(p) ==> p@ == pattern@,
{
    match regex::Regex::new(pattern) {
        Ok(regex) => Some(Pattern { source: pattern.to_string(), regex }),
        Err(_) => None,
    }
}

/// `regex::Regex::is_match`: claims the answer is the named one for the
/// pattern and the haystack.
#[verifier::external_body]
pub(crate) fn is_match(p: &Pattern, haystack: &str) -> (r: bool)
    ensures
        r == regex_is_match(p@, haystack@),
{
    p.regex.is_match(haystack)
}

/// `regex::Regex::captures` followed by `Captures::get(group)`: the text of
/// the group in the first match, if any. Claims the answer is the named one
/// for the pattern, the haystack and the group.
#[verifier::external_body]
pub(crate) fn capture(p: &Pattern, haystack: &str, group: usize) -> (r: Option<String>)
    ensures
        r matches Some(s) ==> regex_capture(p@, haystack@, group as nat) == Some(s@),
        r is None ==> regex_capture(p@, haystack@, group as nat) is None,
{
    match p.regex.captures(haystack) {
        Some(caps) => match caps.get(group) {
            Some(m) => Some(m.as_str().to_string()),
            None => None,
        },
        None => None,
    }
}

/// `regex::Regex::replace` with a string replacement: claims the answer is
/// the named one for the pattern, the haystack and the replacement.
#[verifier::external_body]
pub(crate) fn replace(p: &Pattern, haystack: &str, replacement: &str) -> (r: String)
    ensures
        r@ == regex_replace(p@, haystack@, replacement@),
{
    p.regex.replace(haystack, replacement).to_string()
}

} // verus!
