//! Asking the user, line by line.
use vstd::prelude::*;
use vstd::string::*;
use crate::security::PendingAction;
use crate::text::{cat3, cat4, same, to_chars, trim, trimmed};
use crate::ui::theme::{accent, styled, warn, ACCENT, WARN};

verus! {

/// A character with its case dropped, where it is an ASCII letter.
pub open spec fn lower(c: char) -> char {
    if 'A' <= c <= 'Z' {
        (c as u32 + 32) as char
    } else {
        c
    }
}

/// Whether an answer allows what was asked: `y` or `yes`, in any case, and nothing else.
pub open spec fn is_yes(answer: Seq<char>) -> bool {
    let a = trim(answer).map_values(|c: char| lower(c));
    a == "y"@ || a == "yes"@
}

fn lowered(s: &str) -> (r: String)
    ensures
        r@ == s@.map_values(|c: char| lower(c)),
{
    let v = to_chars(s);
    let mut r = String::new();
    let mut i: usize = 0;
    while i < v.len()
        invariant
            i <= v@.len(),
            v@ == s@,
            r@ == s@.take(i as int).map_values(|c: char| lower(c)),
        decreases v@.len() - i,
    {
        let c = v[i];
        if 'A' <= c && c <= 'Z' {
            r.push((c as u8 + 32) as char);
        } else {
            r.push(c);
        }
        assert(s@.take(i + 1) =~= s@.take(i as int).push(s@[i as int]));
        assert(r@ =~= s@.take(i + 1).map_values(|c: char| lower(c)));
        i = i + 1;
    }
    assert(s@.take(i as int) =~= s@);
    r
}

/// Whether an answer allows what was asked.
pub fn allows(answer: &str) -> (r: bool)
    ensures
        r == is_yes(answer@),
{
    let a = lowered(trimmed(answer).as_str());
    same(a.as_str(), "y") || same(a.as_str(), "yes")
}

/// What is printed before an answer is read: what is to be done, and the question.
pub fn question(action: &PendingAction) -> (r: String)
    ensures
        r@ == "\n"@ + styled(WARN@, "⚠ 需要确认 ["@ + action@.tool_name + "]"@) + "\n"@
            + action@.summary + "\n"@ + styled(ACCENT@, "?"@) + " 允许执行? [y/N] "@,
{
    let head = cat3("⚠ 需要确认 [", action.tool_name.as_str(), "]");
    let mut r = cat4("\n", warn(head.as_str()).as_str(), "\n", action.summary.as_str());
    r.push_str("\n");
    r.push_str(accent("?").as_str());
    r.push_str(" 允许执行? [y/N] ");
    r
}

/// An answer allows what was asked exactly where, white space at its ends aside, it is the letter y or
/// the word yes, in small or large letters.
pub proof fn law_yes_is_yes(answer: Seq<char>)
    ensures
        ({
            let a = trim(answer);
            is_yes(answer) <==> {
                ||| a.len() == 1 && (a[0] == 'y' || a[0] == 'Y')
                ||| a.len() == 3 && (a[0] == 'y' || a[0] == 'Y') && (a[1] == 'e' || a[1] == 'E') && (
                a[2] == 's' || a[2] == 'S')
            }
        }),
{
    reveal_strlit("y");
    reveal_strlit("yes");
    let a = trim(answer);
    let b = a.map_values(|c: char| lower(c));
    assert("y"@.len() == 1 && "yes"@.len() == 3);
    assert(is_yes(answer) == (b =~= "y"@ || b =~= "yes"@));
    if a.len() == 1 {
        assert(b =~= "y"@ <==> b[0] == 'y');
        assert((lower(a[0]) == 'y') == (a[0] == 'y' || a[0] == 'Y'));
    }
    if a.len() == 3 {
        assert(b =~= "yes"@ <==> b[0] == 'y' && b[1] == 'e' && b[2] == 's');
        assert((lower(a[0]) == 'y') == (a[0] == 'y' || a[0] == 'Y'));
        assert((lower(a[1]) == 'e') == (a[1] == 'e' || a[1] == 'E'));
        assert((lower(a[2]) == 's') == (a[2] == 's' || a[2] == 'S'));
    }
}

} // verus!
