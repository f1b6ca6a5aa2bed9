//! The blue theme: the one place where colours are chosen.
use vstd::prelude::*;
use vstd::string::*;
use crate::text::{cat3, dec, dec_text};

verus! {

/// The accent: RGB(59, 130, 246).
pub const ACCENT: &'static str = "\x1b[38;2;59;130;246m";

pub const ACCENT_BOLD: &'static str = "\x1b[1;38;2;59;130;246m";

pub const DIM: &'static str = "\x1b[2m";

pub const ERROR: &'static str = "\x1b[31m";

pub const WARN: &'static str = "\x1b[33m";

pub const SUCCESS: &'static str = "\x1b[32m";

pub const THINKING: &'static str = "\x1b[2;3m";

pub const BOLD: &'static str = "\x1b[1m";

pub const ITALIC: &'static str = "\x1b[3m";

/// Code inside a line.
pub const CODE: &'static str = "\x1b[96m";

pub const RESET: &'static str = "\x1b[0m";

/// To the start of the line, and the line is cleared.
pub const CLEAR_LINE: &'static str = "\r\x1b[2K";

/// The screen and what has scrolled off it are cleared, and the cursor goes home.
pub const CLEAR_SCREEN: &'static str = "\x1b[2J\x1b[3J\x1b[H";

/// A colour of the full-screen interface, by what it is for.
#[derive(Debug, Clone, Copy, PartialEq, Eq, Structural)]
pub enum Color {
    Accent,
    Dim,
    Error,
    Warn,
    Success,
    Code,
    CodeBackground,
    Border,
    DiffAdd,
    DiffDel,
}

pub const C_ACCENT: Color = Color::Accent;

pub const C_DIM: Color = Color::Dim;

pub const C_ERROR: Color = Color::Error;

pub const C_WARN: Color = Color::Warn;

pub const C_SUCCESS: Color = Color::Success;

pub const C_CODE: Color = Color::Code;

pub const C_CODE_BG: Color = Color::CodeBackground;

pub const C_BORDER: Color = Color::Border;

pub const C_DIFF_ADD: Color = Color::DiffAdd;

pub const C_DIFF_DEL: Color = Color::DiffDel;

/// `s` in a style that ends where `s` does.
pub open spec fn styled(style: Seq<char>, s: Seq<char>) -> Seq<char> {
    style + s + RESET@
}

pub fn accent(s: &str) -> (r: String)
    ensures
        r@ == styled(ACCENT@, s@),
{
    cat3(ACCENT, s, RESET)
}

pub fn accent_bold(s: &str) -> (r: String)
    ensures
        r@ == styled(ACCENT_BOLD@, s@),
{
    cat3(ACCENT_BOLD, s, RESET)
}

pub fn dim(s: &str) -> (r: String)
    ensures
        r@ == styled(DIM@, s@),
{
    cat3(DIM, s, RESET)
}

pub fn error(s: &str) -> (r: String)
    ensures
        r@ == styled(ERROR@, s@),
{
    cat3(ERROR, s, RESET)
}

pub fn warn(s: &str) -> (r: String)
    ensures
        r@ == styled(WARN@, s@),
{
    cat3(WARN, s, RESET)
}

pub fn success(s: &str) -> (r: String)
    ensures
        r@ == styled(SUCCESS@, s@),
{
    cat3(SUCCESS, s, RESET)
}

pub fn bold(s: &str) -> (r: String)
    ensures
        r@ == styled(BOLD@, s@),
{
    cat3(BOLD, s, RESET)
}

/// The cursor goes to column `n`, the first being 1.
pub open spec fn to_col(n: nat) -> Seq<char> {
    "\x1b["@ + dec(n) + "G"@
}

/// The text that moves the cursor to column `n`, the first being 1.
pub fn goto_col(n: usize) -> (r: String)
    ensures
        r@ == to_col(n as nat),
{
    let d = dec_text(n as u64);
    cat3("\x1b[", d.as_str(), "G")
}

} // verus!
