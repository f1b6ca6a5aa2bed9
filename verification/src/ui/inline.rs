//! The marks inside a line of Markdown: `` `code` ``, `**bold**` and `*italic*`.
use vstd::prelude::*;
use crate::text::{is_white, white};

verus! {

/// Which marks are open.
#[derive(Debug, Clone, Copy, PartialEq, Eq, Structural)]
pub struct Marks {
    pub code: bool,
    pub bold: bool,
    pub italic: bool,
}

/// No mark is open.
pub open spec fn no_marks() -> Marks {
    Marks { code: false, bold: false, italic: false }
}

/// No mark is open.
pub fn unmarked() -> (r: Marks)
    ensures
        r == no_marks(),
{
    Marks { code: false, bold: false, italic: false }
}

/// What stands at a place of a line.
#[derive(Debug, Clone, Copy, PartialEq, Eq, Structural)]
pub enum Piece {
    /// A character of the text.
    Text,
    /// A mark one character long, after which these marks are open.
    Mark(Marks),
    /// A mark two characters long, after which these marks are open.
    Double(Marks),
}

/// What stands at `i`, where the marks `m` are open. Inside code there is nothing but its end. A
/// star ends what is italic; two stars begin or end what is bold; one star begins what is italic,
/// unless white space or the end of the line follows, as in `a * b`.
pub open spec fn piece_at(s: Seq<char>, i: int, m: Marks) -> Piece {
    if m.code {
        if s[i] == '`' {
            Piece::Mark(Marks { code: false, ..m })
        } else {
            Piece::Text
        }
    } else if s[i] == '`' {
        Piece::Mark(Marks { code: true, ..m })
    } else if s[i] != '*' {
        Piece::Text
    } else if m.italic {
        Piece::Mark(Marks { italic: false, ..m })
    } else if i + 1 < s.len() && s[i + 1] == '*' {
        Piece::Double(Marks { bold: !m.bold, ..m })
    } else if i + 1 < s.len() && !is_white(s[i + 1]) {
        Piece::Mark(Marks { italic: true, ..m })
    } else {
        Piece::Text
    }
}

/// Finds [`piece_at`].
pub fn find_piece(v: &[char], i: usize, m: Marks) -> (r: Piece)
    requires
        i < v@.len(),
    ensures
        r == piece_at(v@, i as int, m),
        r is Double ==> i + 1 < v@.len(),
{
    let n: usize = v.len();
    let c = v[i];
    if m.code {
        return if c == '`' {
            Piece::Mark(Marks { code: false, bold: m.bold, italic: m.italic })
        } else {
            Piece::Text
        };
    }
    if c == '`' {
        return Piece::Mark(Marks { code: true, bold: m.bold, italic: m.italic });
    }
    if c != '*' {
        return Piece::Text;
    }
    if m.italic {
        return Piece::Mark(Marks { code: false, bold: m.bold, italic: false });
    }
    if i < n - 1 && v[i + 1] == '*' {
        return Piece::Double(Marks { code: false, bold: !m.bold, italic: false });
    }
    if i < n - 1 && !white(v[i + 1]) {
        return Piece::Mark(Marks { code: false, bold: m.bold, italic: true });
    }
    Piece::Text
}

/// The text of a line from `i` on, without its marks.
pub open spec fn unmarked_text(s: Seq<char>, i: int, m: Marks) -> Seq<char>
    decreases s.len() - i,
{
    if i >= s.len() {
        Seq::empty()
    } else {
        match piece_at(s, i, m) {
            Piece::Text => seq![s[i]] + unmarked_text(s, i + 1, m),
            Piece::Mark(n) => unmarked_text(s, i + 1, n),
            Piece::Double(n) => unmarked_text(s, i + 2, n),
        }
    }
}

/// The marks that are open at the end of a line, from `i` on.
pub open spec fn marks_after(s: Seq<char>, i: int, m: Marks) -> Marks
    decreases s.len() - i,
{
    if i >= s.len() {
        m
    } else {
        match piece_at(s, i, m) {
            Piece::Text => marks_after(s, i + 1, m),
            Piece::Mark(n) => marks_after(s, i + 1, n),
            Piece::Double(n) => marks_after(s, i + 2, n),
        }
    }
}

} // verus!
