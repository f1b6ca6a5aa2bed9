//! Regular expressions, which are the `regex` crate's.
use vstd::prelude::*;
use vstd::string::*;

verus! {

/// `regex`'s compiled expression.
#[verifier::external_type_specification]
#[verifier::external_body]
pub struct ExRegex(regex::Regex);

/// The pattern that a compiled expression was made from (`Regex::as_str`).
pub uninterp spec fn pattern_of(re: regex::Regex) -> Seq<char>;

/// Why `Regex::new` refuses a pattern: the message of its error; nothing where it does not.
pub uninterp spec fn pattern_fault(pattern: Seq<char>) -> Option<Seq<char>>;

/// Whether the expression that `Regex::new` makes of a pattern matches anywhere in a text
/// (`Regex::is_match`).
pub uninterp spec fn pattern_matches(pattern: Seq<char>, text: Seq<char>) -> bool;

/// `regex::Regex::new`: the compiled pattern, or the message of the error. Both depend on the
/// pattern alone.
#[verifier::external_body]
pub(crate) fn compile(pattern: &str) -> (r: Result<regex::Regex, String>)
    ensures
        match r {
            Ok(re) => pattern_fault(pattern@) is None && pattern_of(re) == pattern@,
            Err(m) => pattern_fault(pattern@) == Some(m@),
        },
{
    regex::Regex::new(pattern).map_err(|e| e.to_string())
}

/// `regex::Regex::is_match`: whether the expression matches anywhere in the text. It depends on
/// the pattern and the text alone.
#[verifier::external_body]
pub(crate) fn is_match(re: &regex::Regex, text: &str) -> (r: bool)
    ensures
        r == pattern_matches(pattern_of(*re), text@),
{
    re.is_match(text)
}

/// `regex::Regex`'s `clone`: an expression made from the same pattern.
#[verifier::external_body]
pub(crate) fn clone_regex(re: &regex::Regex) -> (r: regex::Regex)
    ensures
        pattern_of(r) == pattern_of(*re),
{
    re.clone()
}

/// The patterns of a list of compiled expressions.
pub open spec fn patterns(v: Seq<regex::Regex>) -> Seq<Seq<char>> {
    Seq::new(v.len(), |i: int| pattern_of(v[i]))
}

/// Whether any of the patterns matches.
pub open spec fn any_matches(ps: Seq<Seq<char>>, text: Seq<char>) -> bool {
    exists|i: int| 0 <= i < ps.len() && pattern_matches(#[trigger] ps[i], text)
}

/// Decides [`any_matches`].
pub(crate) fn any_match(v: &Vec<regex::Regex>, text: &str) -> (r: bool)
    ensures
        r == any_matches(patterns(v@), text@),
{
    let ghost ps = patterns(v@);
    let mut i: usize = 0;
    while i < v.len()
        invariant
            i <= v@.len(),
            ps == patterns(v@),
            forall|k: int| 0 <= k < i ==> !pattern_matches(#[trigger] ps[k], text@),
        decreases v@.len() - i,
    {
        if is_match(&v[i], text) {
            assert(pattern_matches(ps[i as int], text@));
            return true;
        }
        assert(ps[i as int] == pattern_of(v@[i as int]));
        i = i + 1;
    }
    false
}

/// The same expressions again.
pub(crate) fn same_patterns(v: &Vec<regex::Regex>) -> (r: Vec<regex::Regex>)
    ensures
        patterns(r@) == patterns(v@),
{
    let mut r: Vec<regex::Regex> = Vec::new();
    let mut i: usize = 0;
    while i < v.len()
        invariant
            i <= v@.len(),
            r@.len() == i,
            forall|k: int| 0 <= k < i ==> pattern_of(#[trigger] r@[k]) == pattern_of(v@[k]),
        decreases v@.len() - i,
    {
        r.push(clone_regex(&v[i]));
        i = i + 1;
    }
    assert(patterns(r@) =~= patterns(v@));
    r
}

} // verus!
