//! What an interactive session begins with.
use vstd::prelude::*;
use vstd::string::*;
use crate::text::{cat2, cat3, char_count, lines, text_lines, views};
use crate::ui::theme::{dim, styled, ACCENT, DIM, RESET};

verus! {

/// The name in large letters.
pub const WORDMARK: &'static str =
    "██╗     ███████╗██╗  ██╗     ██████╗ ██████╗ ██████╗ ███████╗\n██║     ██╔════╝╚██╗██╔╝    ██╔════╝██╔═══██╗██╔══██╗██╔════╝\n██║     █████╗   ╚███╔╝     ██║     ██║   ██║██║  ██║█████╗\n██║     ██╔══╝   ██╔██╗     ██║     ██║   ██║██║  ██║██╔══╝\n███████╗███████╗██╔╝ ██╗    ╚██████╗╚██████╔╝██████╔╝███████╗\n╚══════╝╚══════╝╚═╝  ╚═╝     ╚═════╝ ╚═════╝ ╚═════╝ ╚══════╝";

/// The version of the program.
pub const VERSION: &'static str = "0.1.0";

/// How many characters the longest of some lines has.
pub open spec fn widest(ls: Seq<Seq<char>>) -> nat
    decreases ls.len(),
{
    if ls.len() == 0 {
        0
    } else if ls.last().len() > widest(ls.drop_last()) {
        ls.last().len()
    } else {
        widest(ls.drop_last())
    }
}

/// Lines in the accent, each with its newline.
pub open spec fn accented(ls: Seq<Seq<char>>) -> Seq<char>
    decreases ls.len(),
{
    if ls.len() == 0 {
        Seq::empty()
    } else {
        accented(ls.drop_last()) + (styled(ACCENT@, ls.last()) + "\n"@)
    }
}

/// The name: in large letters where there is room for them.
pub open spec fn title(term: int) -> Seq<char> {
    if term >= widest(lines(WORDMARK@)) + 2 {
        accented(lines(WORDMARK@))
    } else {
        styled(ACCENT@, "██ Lex Code"@) + "\n"@
    }
}

/// All of it.
pub open spec fn banner(
    term: int,
    provider: Seq<char>,
    model: Seq<char>,
    cwd: Seq<char>,
    project_type: Seq<char>,
) -> Seq<char> {
    "\n"@ + title(term) + styled(DIM@, "v"@ + VERSION@) + "\n\n"@ + styled(ACCENT@, "●"@)
        + " provider: "@ + provider + " · model: "@ + model + "\n"@ + styled(ACCENT@, "●"@)
        + " 目录: "@ + cwd + " · "@ + project_type + "\n"@ + styled(
        DIM@,
        "? Ctrl+C 清空/退出 · Ctrl+D 退出 · ↑↓ 翻历史"@,
    ) + "\n\n"@
}

fn wordmark_lines() -> (r: (usize, String))
    ensures
        r.0 == widest(lines(WORDMARK@)),
        r.1@ == accented(lines(WORDMARK@)),
{
    let ls = text_lines(WORDMARK);
    let ghost all = views(ls@);
    let mut n: usize = 0;
    let mut r = String::new();
    let mut i: usize = 0;
    assert(all.take(0) =~= Seq::empty());
    while i < ls.len()
        invariant
            i <= ls@.len(),
            all == views(ls@),
            n == widest(all.take(i as int)),
            r@ == accented(all.take(i as int)),
        decreases ls@.len() - i,
    {
        assert(all.take(i + 1).drop_last() =~= all.take(i as int));
        assert(all.take(i + 1).last() == ls@[i as int]@);
        let k = char_count(ls[i].as_str());
        if k > n {
            n = k;
        }
        let mut one = cat3(ACCENT, ls[i].as_str(), RESET);
        one.push_str("\n");
        r.push_str(one.as_str());
        i = i + 1;
    }
    assert(all.take(i as int) =~= all);
    (n, r)
}

/// What an interactive session begins with, on a terminal of `term` columns; see [`banner`].
pub fn banner_text(term: u16, provider: &str, model: &str, cwd: &str, project_type: &str) -> (r:
    String)
    ensures
        r@ == banner(term as int, provider@, model@, cwd@, project_type@),
{
    let (wide, mark) = wordmark_lines();
    let title = if term as usize >= 2 && term as usize - 2 >= wide {
        mark
    } else {
        let mut t = cat3(ACCENT, "██ Lex Code", RESET);
        t.push_str("\n");
        t
    };
    let version = cat2("v", VERSION);
    let mut r = cat2("\n", title.as_str());
    r.push_str(dim(version.as_str()).as_str());
    r.push_str("\n\n");
    r.push_str(cat3(ACCENT, "●", RESET).as_str());
    r.push_str(" provider: ");
    r.push_str(provider);
    r.push_str(" · model: ");
    r.push_str(model);
    r.push_str("\n");
    r.push_str(cat3(ACCENT, "●", RESET).as_str());
    r.push_str(" 目录: ");
    r.push_str(cwd);
    r.push_str(" · ");
    r.push_str(project_type);
    r.push_str("\n");
    r.push_str(dim("? Ctrl+C 清空/退出 · Ctrl+D 退出 · ↑↓ 翻历史").as_str());
    r.push_str("\n\n");
    r
}


/// The greeting names the service, the model, the directory and the kind of the project, in that
/// order; on a terminal that is too narrow for the large title the small one is shown.
pub proof fn law_greeting_names_the_session(
    term: int,
    provider: Seq<char>,
    model: Seq<char>,
    cwd: Seq<char>,
    project_type: Seq<char>,
)
    ensures
        exists|a: Seq<char>, b: Seq<char>|
            banner(term, provider, model, cwd, project_type) == #[trigger] (a + (" provider: "@
                + provider + " · model: "@ + model + "\n"@) + b) && (exists|c: Seq<char>, d: Seq<char>|
                b == #[trigger] (c + (" 目录: "@ + cwd + " · "@ + project_type + "\n"@) + d)),
        term < widest(lines(WORDMARK@)) + 2 ==> title(term) == ACCENT@ + "██ Lex Code"@ + RESET@ + "\n"@,
{
    let a = "\n"@ + title(term) + styled(DIM@, "v"@ + VERSION@) + "\n\n"@ + styled(ACCENT@, "●"@);
    let one = " provider: "@ + provider + " · model: "@ + model + "\n"@;
    let c = styled(ACCENT@, "●"@);
    let two = " 目录: "@ + cwd + " · "@ + project_type + "\n"@;
    let d = styled(DIM@, "? Ctrl+C 清空/退出 · Ctrl+D 退出 · ↑↓ 翻历史"@) + "\n\n"@;
    let b = c + two + d;
    assert(banner(term, provider, model, cwd, project_type) =~= a + one + b);
}

} // verus!
