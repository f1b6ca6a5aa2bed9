//! What is drawn: the lines of each part of the screen, and which of them are seen.
use vstd::prelude::*;
use vstd::string::*;
use crate::security::{DetailView, PendingAction, PendingDetail, PendingView};
use crate::text::{
    cat2, cat3, cat5, dec, dec_text, first_chars, at_most, lines, repeat, repeated, split,
    split_char, to_chars, views,
};
use crate::tools::{str_views, todo_views, Todo, TodoStatus, TodoView};
use crate::tui::diff::{diff_views, line_diff, shown_diff, whole_diff, DiffLine, DiffView};
use crate::tui::line::{
    fg_bg_style, fg_style, line_views, push_line, push_span, raw_line, raw_span, styled_span,
    text_of, Line, Span, SpanView, Style,
};
use crate::tui::state::{candidates, AppState, AppView};
use crate::ui::settings::{
    field_defs, field_display, field_text, field_views, fields_of, list_page, module_title,
    render_list, title_of, PageState, SettingsView, Shown,
};
use crate::ui::theme::{
    Color, C_ACCENT, C_CODE, C_CODE_BG, C_DIFF_ADD, C_DIFF_DEL, C_DIM, C_ERROR, C_SUCCESS, C_WARN,
};
use crate::ui::width::{char_cols, char_width, held, str_width, text_cols};

verus! {

/// Bold, in a colour.
pub open spec fn bold_style(c: Color) -> Style {
    Style { fg: Some(c), bg: None, bold: true, italic: false }
}

fn bold_fg(c: Color) -> (r: Style)
    ensures
        r == bold_style(c),
{
    Style { fg: Some(c), bg: None, bold: true, italic: false }
}

// ---- the context ----

/// How much of the context is used, in percent, but no more than all of it.
pub open spec fn percent(used: u64, limit: u64) -> int {
    let p = used * 100 / (limit as int);
    if p < 100 {
        p
    } else {
        100
    }
}

/// The line on the context. Near the point where it is compressed it warns.
pub open spec fn context_span(usage: Option<(u64, u64)>) -> SpanView {
    match usage {
        None => styled_span("上下文 -"@, fg_style(C_DIM)),
        Some((used, limit)) => if limit == 0 {
            styled_span(
                "上下文 "@ + dec(used as nat) + " tokens(未启用压缩)"@,
                fg_style(C_DIM),
            )
        } else {
            styled_span(
                "上下文 "@ + dec(used as nat) + "/"@ + dec(limit as nat) + " tokens("@ + dec(
                    percent(used, limit) as nat,
                ) + "%)"@,
                fg_style(
                    if percent(used, limit) >= 80 {
                        C_WARN
                    } else {
                        C_DIM
                    },
                ),
            )
        },
    }
}

fn used_percent(used: u64, limit: u64) -> (r: u64)
    requires
        limit > 0,
    ensures
        r == percent(used, limit),
{
    let p: u128 = used as u128 * 100 / limit as u128;
    if p < 100 {
        p as u64
    } else {
        100
    }
}

/// The line on the context; see [`context_span`].
pub fn context_line(app: &AppState) -> (r: Line)
    ensures
        r@ == seq![context_span(app@.ctx_usage)],
{
    match app.ctx_usage {
        None => Line::of(Span::styled("上下文 -", Style::fg(C_DIM))),
        Some((used, limit)) => {
            let a = dec_text(used);
            if limit == 0 {
                let text = cat3("上下文 ", a.as_str(), " tokens(未启用压缩)");
                return Line::of(Span::styled(text.as_str(), Style::fg(C_DIM)));
            }
            let p = used_percent(used, limit);
            let b = dec_text(limit);
            let mut text = cat5("上下文 ", a.as_str(), "/", b.as_str(), " tokens(");
            text.push_str(dec_text(p).as_str());
            text.push_str("%)");
            let color = if p >= 80 {
                C_WARN
            } else {
                C_DIM
            };
            Line::of(Span::styled(text.as_str(), Style::fg(color)))
        },
    }
}

// ---- completing commands ----

/// What the keys do in the menu of commands.
pub const COMPLETION_HINT: &'static str = "↑/↓ 选择 · Tab 补全 · Enter 执行";

/// The first `n` commands of the menu, the chosen one set apart.
pub open spec fn menu_spans(names: Seq<Seq<char>>, sel: int, n: int) -> Seq<SpanView>
    decreases n,
{
    if n <= 0 {
        Seq::empty()
    } else {
        menu_spans(names, sel, n - 1) + seq![
            styled_span(
                names[n - 1],
                if n - 1 == sel {
                    bold_style(C_ACCENT)
                } else {
                    fg_style(C_DIM)
                },
            ),
            raw_span("  "@),
        ]
    }
}

/// The command of a menu that is chosen.
pub open spec fn chosen(names: Seq<Seq<char>>, sel: usize) -> int {
    if sel < names.len() {
        sel as int
    } else if names.len() > 0 {
        names.len() - 1
    } else {
        0
    }
}

/// The menu of commands.
pub fn completion_line(app: &AppState) -> (r: Line)
    ensures
        r@ == menu_spans(
            candidates(app@.input),
            chosen(candidates(app@.input), app@.completion_sel),
            candidates(app@.input).len() as int,
        ),
{
    let names = app.completion_candidates();
    let ghost all = str_views(names@);
    assert(all.len() == names@.len());
    let n: usize = names.len();
    let sel: usize = if app.completion_sel < n {
        app.completion_sel
    } else if n > 0 {
        n - 1
    } else {
        0
    };
    let mut line = Line::empty();
    let mut i: usize = 0;
    while i < n
        invariant
            i <= n,
            n == names@.len(),
            all == str_views(names@),
            line@ == menu_spans(all, sel as int, i as int),
        decreases n - i,
    {
        assert(all[i as int] == names@[i as int]@);
        let style = if i == sel {
            bold_fg(C_ACCENT)
        } else {
            Style::fg(C_DIM)
        };
        let ghost before = line@;
        push_span(&mut line.spans, Span::styled(names[i], style));
        push_span(&mut line.spans, Span::raw("  "));
        assert(line@ =~= before + seq![styled_span(all[i as int], style), raw_span("  "@)]);
        i = i + 1;
    }
    line
}

// ---- escape sequences ----

/// An ASCII letter.
pub open spec fn is_letter(c: char) -> bool {
    'a' <= c <= 'z' || 'A' <= c <= 'Z'
}

/// A text from `i` on without escape sequences, each of which runs from the escape character to the
/// next letter; `inside` says whether one is under way.
pub open spec fn unescaped(s: Seq<char>, i: int, inside: bool) -> Seq<char>
    decreases s.len() - i,
{
    if i >= s.len() {
        Seq::empty()
    } else if inside {
        unescaped(s, i + 1, !is_letter(s[i]))
    } else if s[i] == '\x1b' {
        unescaped(s, i + 1, true)
    } else {
        seq![s[i]] + unescaped(s, i + 1, false)
    }
}

/// A text without escape sequences.
pub fn strip_ansi(s: &str) -> (r: String)
    ensures
        r@ == unescaped(s@, 0, false),
{
    let v = to_chars(s);
    let mut out = String::new();
    let mut inside = false;
    let mut i: usize = 0;
    assert(out@ + unescaped(s@, 0, false) =~= unescaped(s@, 0, false));
    while i < v.len()
        invariant
            i <= v@.len(),
            v@ == s@,
            out@ + unescaped(s@, i as int, inside) == unescaped(s@, 0, false),
        decreases v@.len() - i,
    {
        let c = v[i];
        let ghost before = out@ + unescaped(s@, i as int, inside);
        if inside {
            inside = !(('a' <= c && c <= 'z') || ('A' <= c && c <= 'Z'));
        } else if c == '\x1b' {
            inside = true;
        } else {
            out.push(c);
        }
        i = i + 1;
        assert(out@ + unescaped(s@, i as int, inside) =~= before);
    }
    assert(out@ + Seq::<char>::empty() =~= out@);
    out
}

/// A text without an escape character is left as it is.
pub proof fn law_plain_text_has_nothing_to_strip(s: Seq<char>, i: int)
    requires
        0 <= i <= s.len(),
        !s.contains('\x1b'),
    ensures
        unescaped(s, i, false) == s.skip(i),
    decreases s.len() - i,
{
    if i < s.len() {
        law_plain_text_has_nothing_to_strip(s, i + 1);
        assert(s[i] != '\x1b');
        assert(seq![s[i]] + s.skip(i + 1) =~= s.skip(i));
    } else {
        assert(s.skip(i) =~= Seq::empty());
    }
}

// ---- rows ----

/// The rows that words take so far, and the columns of the last row.
pub struct Wrapped {
    pub rows: usize,
    pub cur: int,
}

/// One more word, where it has any width. A word too wide for a row is broken; the blank behind a
/// word takes a column, or begins a row.
pub open spec fn word_wrapped(w: Wrapped, word: Seq<char>, width: int) -> Wrapped {
    let ww = text_cols(word) as int;
    if ww == 0 {
        w
    } else {
        let v = if ww > width {
            Wrapped {
                rows: held(
                    w.rows + (if w.cur > 0 {
                        1int
                    } else {
                        0
                    }) + ww / width,
                ),
                cur: if ww % width == 0 {
                    width
                } else {
                    ww % width
                },
            }
        } else if w.cur + ww <= width {
            Wrapped { rows: w.rows, cur: w.cur + ww }
        } else {
            Wrapped { rows: held(w.rows + 1), cur: ww }
        };
        if v.cur + 1 <= width {
            Wrapped { cur: v.cur + 1, ..v }
        } else {
            Wrapped { rows: held(v.rows + 1), cur: 1 }
        }
    }
}

/// Words, one after the other.
pub open spec fn words_wrapped(words: Seq<Seq<char>>, width: int) -> Wrapped
    decreases words.len(),
{
    if words.len() == 0 {
        Wrapped { rows: 1, cur: 0 }
    } else {
        word_wrapped(words_wrapped(words.drop_last(), width), words.last(), width)
    }
}

/// How many rows a line takes in so many columns.
pub open spec fn rows_of(line: Seq<SpanView>, width: int) -> usize {
    if width == 0 {
        1
    } else {
        words_wrapped(split(text_of(line), ' '), width).rows
    }
}

/// How many rows a line takes; see [`rows_of`].
pub fn wrapped_rows(line: &Line, width: usize) -> (r: usize)
    ensures
        r == rows_of(line@, width as int),
{
    if width == 0 {
        return 1;
    }
    let text = line.text();
    let words = split_char(text.as_str(), ' ');
    let ghost all = views(words@);
    let mut rows: usize = 1;
    let mut cur: usize = 0;
    let mut i: usize = 0;
    assert(all.take(0) =~= Seq::empty());
    while i < words.len()
        invariant
            i <= words@.len(),
            width > 0,
            all == views(words@),
            cur <= width,
            rows == words_wrapped(all.take(i as int), width as int).rows,
            cur == words_wrapped(all.take(i as int), width as int).cur,
        decreases words@.len() - i,
    {
        assert(all.take(i + 1).drop_last() =~= all.take(i as int));
        assert(all.take(i + 1).last() == words@[i as int]@);
        let ww = str_width(words[i].as_str());
        if ww > 0 {
            if ww > width {
                if cur > 0 {
                    rows = rows.saturating_add(1);
                }
                rows = rows.saturating_add(ww / width);
                cur = ww % width;
                if cur == 0 {
                    cur = width;
                }
            } else if ww <= width - cur {
                cur = cur + ww;
            } else {
                rows = rows.saturating_add(1);
                cur = ww;
            }
            if cur < width {
                cur = cur + 1;
            } else {
                rows = rows.saturating_add(1);
                cur = 1;
            }
        }
        i = i + 1;
    }
    assert(all.take(i as int) =~= all);
    rows
}

/// How many rows lines take.
pub open spec fn total_rows(ls: Seq<Seq<SpanView>>, width: int) -> usize
    decreases ls.len(),
{
    if ls.len() == 0 {
        0
    } else {
        held(total_rows(ls.drop_last(), width) + rows_of(ls.last(), width))
    }
}

/// How many rows lines take; see [`total_rows`].
pub fn count_rows(ls: &Vec<Line>, width: usize) -> (r: usize)
    ensures
        r == total_rows(line_views(ls@), width as int),
{
    let ghost all = line_views(ls@);
    let mut n: usize = 0;
    let mut i: usize = 0;
    assert(all.take(0) =~= Seq::empty());
    while i < ls.len()
        invariant
            i <= ls@.len(),
            all == line_views(ls@),
            n == total_rows(all.take(i as int), width as int),
        decreases ls@.len() - i,
    {
        assert(all.take(i + 1).drop_last() =~= all.take(i as int));
        assert(all.take(i + 1).last() == ls@[i as int]@);
        n = n.saturating_add(wrapped_rows(&ls[i], width));
        i = i + 1;
    }
    assert(all.take(i as int) =~= all);
    n
}

/// `a - b`, but no less than zero.
pub open spec fn minus(a: int, b: int) -> int {
    if a >= b {
        a - b
    } else {
        0
    }
}

/// The rows above the window: all but those that are seen and those that are scrolled past. One
/// cannot scroll past the first.
pub open spec fn rows_above(total: int, visible: int, scroll: int) -> int {
    let most = minus(total, visible);
    let s = if scroll < most {
        scroll
    } else {
        most
    };
    minus(total - s, visible)
}

/// The first line that is seen, from line `i` on, with so many rows above it still to pass.
pub open spec fn first_seen(ls: Seq<Seq<SpanView>>, width: int, i: int, above: int) -> (int, int)
    decreases ls.len() - i,
{
    if i < ls.len() && rows_of(ls[i], width) <= above {
        first_seen(ls, width, i + 1, above - rows_of(ls[i], width))
    } else {
        (i, above)
    }
}

/// Which line of the transcript is the first that is seen, and how many of its rows are not.
pub fn transcript_window(app: &AppState, width: usize, visible: usize) -> (r: (usize, usize))
    ensures
        ({
            let ls = app@.transcript;
            let above = rows_above(
                total_rows(ls, width as int) as int,
                visible as int,
                app@.scroll as int,
            );
            (r.0 as int, r.1 as int) == first_seen(ls, width as int, 0, above)
        }),
        r.0 <= app@.transcript.len(),
{
    let ghost ls = app@.transcript;
    let total = count_rows(&app.transcript, width);
    let most = total.saturating_sub(visible);
    let scroll = if app.scroll < most {
        app.scroll
    } else {
        most
    };
    let mut above = (total - scroll).saturating_sub(visible);
    let ghost start = above as int;
    assert(start == rows_above(total as int, visible as int, app.scroll as int));
    let mut i: usize = 0;
    while i < app.transcript.len()
        invariant_except_break
            i <= app.transcript@.len(),
            ls == line_views(app.transcript@),
            first_seen(ls, width as int, 0, start) == first_seen(
                ls,
                width as int,
                i as int,
                above as int,
            ),
        ensures
            i <= app.transcript@.len(),
            first_seen(ls, width as int, 0, start) == (i as int, above as int),
        decreases app.transcript@.len() - i,
    {
        assert(ls[i as int] == app.transcript@[i as int]@);
        let rows = wrapped_rows(&app.transcript[i], width);
        if rows > above {
            break;
        }
        above = above - rows;
        i = i + 1;
    }
    (i, above)
}

// ---- the to-do list ----

/// The sign of an item, and its style.
pub open spec fn todo_mark(s: TodoStatus) -> (Seq<char>, Style) {
    match s {
        TodoStatus::Pending => ("○"@, fg_style(C_DIM)),
        TodoStatus::InProgress => ("◐"@, fg_style(C_ACCENT)),
        TodoStatus::Completed => ("◉"@, fg_style(C_SUCCESS)),
    }
}

/// The columns of a character in the to-do list; a control character takes none.
pub open spec fn item_cols(c: char) -> int {
    match char_cols(c) {
        Some(n) => n as int,
        None => 0,
    }
}

/// The rows of an item so far: those that are full, the one that is being filled, and its columns.
#[verifier::ext_equal]
pub struct Filled {
    pub full: Seq<Seq<char>>,
    pub row: Seq<char>,
    pub cur: usize,
}

/// One more character: on the row, or where it has no room there, on a new row, indented. A row
/// always takes one.
pub open spec fn char_filled(f: Filled, c: char, width: int, indent: int) -> Filled {
    let cw = item_cols(c);
    if f.cur + cw > width && f.cur > indent {
        Filled {
            full: f.full.push(f.row),
            row: repeat(" "@, indent as nat).push(c),
            cur: held(indent + cw),
        }
    } else {
        Filled { row: f.row.push(c), cur: held(f.cur + cw), ..f }
    }
}

/// The characters of an item, one after the other.
pub open spec fn filled(s: Seq<char>, width: int, indent: int) -> Filled
    decreases s.len(),
{
    if s.len() == 0 {
        Filled { full: Seq::empty(), row: Seq::empty(), cur: held(indent) }
    } else {
        char_filled(filled(s.drop_last(), width, indent), s.last(), width, indent)
    }
}

/// The rows of an item.
pub open spec fn item_rows(s: Seq<char>, width: int, indent: int) -> Seq<Seq<char>> {
    let f = filled(s, width, indent);
    f.full.push(f.row)
}

/// How far the rows of an item after its first are indented: as far as its sign goes, but not over
/// all the columns.
pub open spec fn indent_of(s: TodoStatus, width: int) -> int {
    let w = text_cols(todo_mark(s).0 + " "@) as int;
    let most = if width > 1 {
        width - 1
    } else {
        0
    };
    if w < most {
        w
    } else {
        most
    }
}

/// The lines of an item: its sign stands before its first row, on the same line.
pub open spec fn item_lines(t: TodoView, width: int) -> Seq<Seq<SpanView>> {
    let rows = item_rows(t.content, width, indent_of(t.status, width));
    Seq::new(
        rows.len(),
        |i: int|
            if i == 0 {
                seq![
                    styled_span(todo_mark(t.status).0 + " "@, todo_mark(t.status).1),
                    raw_span(rows[0]),
                ]
            } else {
                seq![raw_span(rows[i])]
            },
    )
}

/// The lines of the to-do list, with an empty one between items.
pub open spec fn todo_page(ts: Seq<TodoView>, width: int) -> Seq<Seq<SpanView>>
    decreases ts.len(),
{
    if ts.len() == 0 {
        Seq::empty()
    } else if ts.len() == 1 {
        item_lines(ts[0], width)
    } else {
        todo_page(ts.drop_last(), width).push(Seq::empty()) + item_lines(ts.last(), width)
    }
}

fn fill_rows(s: &str, width: usize, indent: usize) -> (r: Vec<String>)
    ensures
        views(r@) == item_rows(s@, width as int, indent as int),
        r@.len() > 0,
{
    let v = to_chars(s);
    let blanks = repeated(" ", indent);
    let mut full: Vec<String> = Vec::new();
    let mut row = String::new();
    let mut cur: usize = indent;
    let mut i: usize = 0;
    assert(v@.take(0) =~= Seq::empty());
    assert(views(full@) =~= Seq::empty());
    while i < v.len()
        invariant
            i <= v@.len(),
            v@ == s@,
            blanks@ == repeat(" "@, indent as nat),
            views(full@) == filled(v@.take(i as int), width as int, indent as int).full,
            row@ == filled(v@.take(i as int), width as int, indent as int).row,
            cur == filled(v@.take(i as int), width as int, indent as int).cur,
        decreases v@.len() - i,
    {
        let c = v[i];
        assert(v@.take(i + 1).drop_last() =~= v@.take(i as int));
        assert(v@.take(i + 1).last() == c);
        let cw = match char_width(c) {
            Some(n) => n,
            None => 0,
        };
        if (cw > width || cur > width - cw) && cur > indent {
            let ghost before = full@;
            let ghost done = row@;
            full.push(row);
            assert(views(full@) =~= views(before).push(done));
            row = blanks.clone();
            cur = indent;
        }
        row.push(c);
        cur = cur.saturating_add(cw);
        i = i + 1;
    }
    assert(v@.take(i as int) =~= v@);
    let ghost before = full@;
    let ghost last = row@;
    full.push(row);
    assert(views(full@) =~= views(before).push(last));
    full
}

fn push_item(out: &mut Vec<Line>, t: &Todo, width: usize)
    ensures
        line_views(final(out)@) == line_views(old(out)@) + item_lines(t@, width as int),
{
    let (mark, style) = match t.status {
        TodoStatus::Pending => ("○", Style::fg(C_DIM)),
        TodoStatus::InProgress => ("◐", Style::fg(C_ACCENT)),
        TodoStatus::Completed => ("◉", Style::fg(C_SUCCESS)),
    };
    let prefix = cat2(mark, " ");
    let most: usize = if width > 1 {
        width - 1
    } else {
        0
    };
    let w = str_width(prefix.as_str());
    let indent: usize = if w < most {
        w
    } else {
        most
    };
    let rows = fill_rows(t.content.as_str(), width, indent);
    let ghost rs = views(rows@);
    let ghost want = item_lines(t@, width as int);
    assert(want.len() == rows@.len());
    let mut i: usize = 0;
    assert(line_views(out@) =~= line_views(old(out)@) + want.take(0));
    while i < rows.len()
        invariant
            i <= rows@.len(),
            rs == views(rows@),
            rs == item_rows(t@.content, width as int, indent_of(t@.status, width as int)),
            want == item_lines(t@, width as int),
            want.len() == rows@.len(),
            prefix@ == todo_mark(t@.status).0 + " "@,
            style == todo_mark(t@.status).1,
            line_views(out@) == line_views(old(out)@) + want.take(i as int),
        decreases rows@.len() - i,
    {
        assert(rs[i as int] == rows@[i as int]@);
        let mut line = Line::empty();
        if i == 0 {
            push_span(&mut line.spans, Span::styled(prefix.as_str(), style));
        }
        push_span(&mut line.spans, Span::raw(rows[i].as_str()));
        assert(line@ =~= want[i as int]);
        push_line(out, line);
        assert(want.take(i + 1) =~= want.take(i as int).push(want[i as int]));
        assert(line_views(out@) =~= line_views(old(out)@) + want.take(i + 1));
        i = i + 1;
    }
    assert(want.take(i as int) =~= want);
}

/// The lines of the to-do list; see [`todo_page`].
pub fn todo_lines(app: &AppState, width: usize) -> (r: Vec<Line>)
    ensures
        line_views(r@) == todo_page(app@.todos, width as int),
{
    let ghost all = app@.todos;
    let mut out: Vec<Line> = Vec::new();
    let mut i: usize = 0;
    assert(all.take(0) =~= Seq::empty());
    assert(line_views(out@) =~= Seq::empty());
    while i < app.todos.len()
        invariant
            i <= app.todos@.len(),
            all == todo_views(app.todos@),
            line_views(out@) == todo_page(all.take(i as int), width as int),
        decreases app.todos@.len() - i,
    {
        assert(all.take(i + 1).drop_last() =~= all.take(i as int));
        assert(all.take(i + 1).last() == app.todos@[i as int]@);
        if i > 0 {
            push_line(&mut out, Line::empty());
            push_item(&mut out, &app.todos[i], width);
        } else {
            push_item(&mut out, &app.todos[i], width);
            assert(all.take(1)[0] == app.todos@[0]@);
            assert(line_views(out@) =~= item_lines(all[0], width as int));
        }
        i = i + 1;
    }
    assert(all.take(i as int) =~= all);
    out
}

// ---- the settings ----

/// What is said of a group that cannot be edited.
pub const READ_ONLY: &'static str = "该模块只读(值来自环境变量与编译期信息)";

/// What the keys do among fields.
pub const FIELD_HINT: &'static str = "↑/↓ 选字段 · Enter 编辑/切换 · Esc 返回列表";

/// What saving does.
pub const SAVE_HINT: &'static str =
    "保存即写回 lex-code.toml(注释不保留)并热生效;max_children 等个别项重启生效";

/// The list of groups as lines.
pub open spec fn list_lines(v: Shown, selected: int) -> Seq<Seq<SpanView>> {
    list_page(v, selected).map_values(|l: Seq<char>| raw_line(unescaped(l, 0, false)))
}

/// The line of a field.
pub open spec fn field_line(v: Shown, p: PageState, i: int) -> Seq<SpanView> {
    let selected = p.field_sel == i && !p.editing;
    seq![
        styled_span(
            (if selected {
                "> "@
            } else {
                "  "@
            }) + fields_of(p.selected as int)[i].0,
            fg_style(
                if selected {
                    C_ACCENT
                } else {
                    C_DIM
                },
            ),
        ),
        raw_span(": "@),
        styled_span(field_text(v, p.selected as int, i), fg_bg_style(C_CODE, C_CODE_BG)),
    ]
}

/// The lines of the fields of a group.
pub open spec fn field_lines(v: Shown, p: PageState) -> Seq<Seq<SpanView>> {
    Seq::new(fields_of(p.selected as int).len(), |i: int| field_line(v, p, i))
}

/// What stands above the fields of a group.
pub open spec fn group_head(p: PageState) -> Seq<Seq<SpanView>> {
    let head = seq![
        seq![styled_span(title_of(p.selected as int), bold_style(C_ACCENT))],
        Seq::empty(),
    ];
    if fields_of(p.selected as int).len() == 0 {
        head.push(seq![styled_span(READ_ONLY@, fg_style(C_DIM))])
    } else {
        head
    }
}

/// What stands below the fields of a group: the field that is edited, or what the keys do; what came
/// of the last edit; and what saving does.
pub open spec fn group_foot(p: PageState, input: Seq<char>, msg: Option<(Seq<char>, bool)>) -> Seq<
    Seq<SpanView>,
> {
    let a = seq![Seq::<SpanView>::empty()];
    let b = if p.editing {
        a.push(
            seq![
                styled_span("编辑中: "@, fg_style(C_WARN)),
                styled_span(input, fg_bg_style(C_CODE, C_CODE_BG)),
                styled_span("   Enter 保存 · Esc 取消"@, fg_style(C_DIM)),
            ],
        )
    } else if fields_of(p.selected as int).len() > 0 {
        a.push(seq![styled_span(FIELD_HINT@, fg_style(C_DIM))])
    } else {
        a
    };
    let c = match msg {
        Some((m, ok)) => b.push(
            seq![
                styled_span(
                    m,
                    fg_style(
                        if ok {
                            C_SUCCESS
                        } else {
                            C_ERROR
                        },
                    ),
                ),
            ],
        ),
        None => b,
    };
    c.push(Seq::empty()).push(seq![styled_span(SAVE_HINT@, fg_style(C_DIM))])
}

/// The page of the settings, where they are open.
pub open spec fn settings_page(v: AppView) -> Seq<Seq<SpanView>> {
    match v.settings {
        None => Seq::empty(),
        Some((s, p)) => if p.in_detail {
            group_head(p) + field_lines(s, p) + group_foot(p, v.input, v.settings_msg)
        } else {
            list_lines(s, p.selected as int)
        },
    }
}

fn draw_list(view: &SettingsView, selected: usize) -> (r: Vec<Line>)
    ensures
        line_views(r@) == list_lines(view@, selected as int),
{
    let texts = render_list(view, selected);
    let ghost all = views(texts@);
    let mut r: Vec<Line> = Vec::new();
    let mut i: usize = 0;
    while i < texts.len()
        invariant
            i <= texts@.len(),
            all == views(texts@),
            r@.len() == i,
            forall|k: int|
                0 <= k < i ==> (#[trigger] r@[k])@ == raw_line(unescaped(all[k], 0, false)),
        decreases texts@.len() - i,
    {
        r.push(Line::raw(strip_ansi(texts[i].as_str()).as_str()));
        i = i + 1;
    }
    assert(line_views(r@) =~= list_lines(view@, selected as int));
    r
}

fn draw_head(p: &PageState) -> (r: Vec<Line>)
    ensures
        line_views(r@) == group_head(*p),
{
    let mut r: Vec<Line> = Vec::new();
    r.push(Line::of(Span::styled(module_title(p.selected), bold_fg(C_ACCENT))));
    r.push(Line::empty());
    let defs = field_defs(p.selected);
    assert(field_views(defs@).len() == defs@.len());
    if defs.len() == 0 {
        r.push(Line::of(Span::styled(READ_ONLY, Style::fg(C_DIM))));
    }
    assert(line_views(r@) =~= group_head(*p));
    r
}

fn draw_fields(view: &SettingsView, p: &PageState) -> (r: Vec<Line>)
    ensures
        line_views(r@) == field_lines(view@, *p),
{
    let defs = field_defs(p.selected);
    let ghost fs = field_views(defs@);
    let mut r: Vec<Line> = Vec::new();
    let mut i: usize = 0;
    while i < defs.len()
        invariant
            i <= defs@.len(),
            fs == field_views(defs@),
            fs == fields_of(p.selected as int),
            r@.len() == i,
            forall|k: int| 0 <= k < i ==> (#[trigger] r@[k])@ == field_line(view@, *p, k),
        decreases defs@.len() - i,
    {
        assert(fs[i as int].0 == defs@[i as int].label@);
        let selected = p.field_sel == i && !p.editing;
        let (mark, color) = if selected {
            ("> ", C_ACCENT)
        } else {
            ("  ", C_DIM)
        };
        let label = cat2(mark, defs[i].label);
        let value = field_display(view, p.selected, i);
        let mut line = Line::empty();
        push_span(&mut line.spans, Span::styled(label.as_str(), Style::fg(color)));
        push_span(&mut line.spans, Span::raw(": "));
        push_span(&mut line.spans, Span::styled(value.as_str(), Style::fg_bg(C_CODE, C_CODE_BG)));
        assert(line@ =~= field_line(view@, *p, i as int));
        r.push(line);
        i = i + 1;
    }
    assert(fs.len() == defs@.len());
    assert(line_views(r@) =~= field_lines(view@, *p));
    r
}

fn draw_foot(p: &PageState, input: &str, msg: &Option<(String, bool)>) -> (r: Vec<Line>)
    ensures
        line_views(r@) == group_foot(
            *p,
            input@,
            match *msg {
                Some((m, ok)) => Some((m@, ok)),
                None => None,
            },
        ),
{
    let mut r: Vec<Line> = Vec::new();
    r.push(Line::empty());
    let defs = field_defs(p.selected);
    assert(field_views(defs@).len() == defs@.len());
    if p.editing {
        let mut line = Line::empty();
        push_span(&mut line.spans, Span::styled("编辑中: ", Style::fg(C_WARN)));
        push_span(&mut line.spans, Span::styled(input, Style::fg_bg(C_CODE, C_CODE_BG)));
        push_span(
            &mut line.spans,
            Span::styled("   Enter 保存 · Esc 取消", Style::fg(C_DIM)),
        );
        assert(line@ =~= seq![
            styled_span("编辑中: "@, fg_style(C_WARN)),
            styled_span(input@, fg_bg_style(C_CODE, C_CODE_BG)),
            styled_span("   Enter 保存 · Esc 取消"@, fg_style(C_DIM)),
        ]);
        r.push(line);
    } else if defs.len() > 0 {
        r.push(Line::of(Span::styled(FIELD_HINT, Style::fg(C_DIM))));
    }
    if let Some((m, ok)) = msg {
        let color = if *ok {
            C_SUCCESS
        } else {
            C_ERROR
        };
        r.push(Line::of(Span::styled(m.as_str(), Style::fg(color))));
    }
    r.push(Line::empty());
    r.push(Line::of(Span::styled(SAVE_HINT, Style::fg(C_DIM))));
    assert(line_views(r@) =~= group_foot(
        *p,
        input@,
        match *msg {
            Some((m, ok)) => Some((m@, ok)),
            None => None,
        },
    ));
    r
}

/// The page of the settings, line by line; see [`settings_page`].
pub fn settings_lines(app: &AppState) -> (r: Vec<Line>)
    ensures
        line_views(r@) == settings_page(app@),
{
    match &app.settings {
        None => {
            let r: Vec<Line> = Vec::new();
            assert(line_views(r@) =~= Seq::empty());
            r
        },
        Some((view, page)) => {
            if !page.in_detail {
                return draw_list(view, page.selected);
            }
            let mut r = draw_head(page);
            let mut fields = draw_fields(view, page);
            let mut foot = draw_foot(page, app.input.as_str(), &app.settings_msg);
            let ghost a = r@;
            let ghost b = fields@;
            let ghost c = foot@;
            r.append(&mut fields);
            r.append(&mut foot);
            assert(line_views(r@) =~= line_views(a) + line_views(b) + line_views(c));
            r
        },
    }
}

// ---- the input line and the status ----

/// Where the cursor stands: behind the prompt and the text before it, but not beyond the box.
pub open spec fn cursor_column(x: int, width: int, before: Seq<char>) -> int {
    let at = x + 2 + text_cols(before);
    let most = x + minus(width, 1);
    if at < most {
        at
    } else {
        most
    }
}

/// Where the cursor stands in a box that begins at column `x` and is `width` columns wide; see
/// [`cursor_column`].
pub fn input_cursor(app: &AppState, x: u16, width: u16) -> (r: u16)
    requires
        x + width <= u16::MAX,
    ensures
        r == cursor_column(x as int, width as int, first_chars(app@.input, app@.cursor as int)),
{
    let before = at_most(app.input.as_str(), app.cursor);
    let w = str_width(before.as_str());
    let most: u16 = if width >= 1 {
        x + (width - 1)
    } else {
        x
    };
    let room: usize = (most - x) as usize;
    if room >= 2 && w < room - 2 {
        x + 2 + w as u16
    } else {
        most
    }
}

/// The status line: what is going on, how far one has scrolled back, and the tokens.
pub open spec fn status_spans(v: AppView) -> Seq<SpanView> {
    let left = seq![styled_span(v.status, fg_style(C_DIM)), raw_span("  "@)];
    let mid = if v.scroll > 0 {
        seq![
            styled_span(
                "↑ 回看 "@ + dec(v.scroll as nat) + " 行(PgDn 回到底部)"@,
                fg_style(C_ACCENT),
            ),
            raw_span("  "@),
        ]
    } else {
        Seq::empty()
    };
    left + mid + seq![
        styled_span(
            match v.usage {
                Some(u) => u,
                None => Seq::empty(),
            },
            fg_style(C_DIM),
        ),
    ]
}

/// The status line; see [`status_spans`].
pub fn status_line(app: &AppState) -> (r: Line)
    ensures
        r@ == status_spans(app@),
{
    let mut line = Line::empty();
    push_span(&mut line.spans, Span::styled(app.status.as_str(), Style::fg(C_DIM)));
    push_span(&mut line.spans, Span::raw("  "));
    if app.scroll > 0 {
        let n = dec_text(app.scroll as u64);
        let text = cat3("↑ 回看 ", n.as_str(), " 行(PgDn 回到底部)");
        push_span(&mut line.spans, Span::styled(text.as_str(), Style::fg(C_ACCENT)));
        push_span(&mut line.spans, Span::raw("  "));
    }
    let usage = match &app.usage {
        Some(u) => u.clone(),
        None => String::new(),
    };
    push_span(&mut line.spans, Span::styled(usage.as_str(), Style::fg(C_DIM)));
    assert(line@ =~= status_spans(app@));
    line
}

// ---- what the user is asked ----

/// A line of a difference: what is put in, what is taken out, and what stays differ in colour.
pub open spec fn diff_span(d: DiffView) -> SpanView {
    match d {
        DiffView::Add(s) => styled_span("+ "@ + s, fg_style(C_DIFF_ADD)),
        DiffView::Del(s) => styled_span("- "@ + s, fg_style(C_DIFF_DEL)),
        DiffView::Ctx(s) => styled_span("  "@ + s, fg_style(C_DIM)),
    }
}

/// The lines of a difference.
pub open spec fn diff_page(d: Seq<DiffView>) -> Seq<Seq<SpanView>> {
    d.map_values(|x: DiffView| seq![diff_span(x)])
}

/// The lines of a difference; see [`diff_page`].
pub fn styled_diff_lines(diff: &Vec<DiffLine>) -> (r: Vec<Line>)
    ensures
        line_views(r@) == diff_page(diff_views(diff@)),
{
    let mut r: Vec<Line> = Vec::new();
    let mut i: usize = 0;
    while i < diff.len()
        invariant
            i <= diff@.len(),
            r@.len() == i,
            forall|k: int| 0 <= k < i ==> (#[trigger] r@[k])@ == seq![diff_span(diff@[k]@)],
        decreases diff@.len() - i,
    {
        let span = match &diff[i] {
            DiffLine::Add(s) => Span::styled(cat2("+ ", s.as_str()).as_str(), Style::fg(C_DIFF_ADD)),
            DiffLine::Del(s) => Span::styled(cat2("- ", s.as_str()).as_str(), Style::fg(C_DIFF_DEL)),
            DiffLine::Ctx(s) => Span::styled(cat2("  ", s.as_str()).as_str(), Style::fg(C_DIM)),
        };
        r.push(Line::of(span));
        i = i + 1;
    }
    assert(line_views(r@) =~= diff_page(diff_views(diff@)));
    r
}

/// What the user is asked: in words, and then the command itself, or the difference that an edit
/// makes.
pub open spec fn question_page(a: PendingView) -> Seq<Seq<SpanView>> {
    let head = seq![seq![styled_span(a.summary, fg_style(C_WARN))], Seq::empty()];
    match a.detail {
        DetailView::Bash { command } => head.push(
            seq![styled_span("$ "@ + command, fg_style(C_ACCENT))],
        ),
        DetailView::FileEdit { path, old_string, new_string } => head.push(
            seq![styled_span("文件: "@ + path, fg_style(C_ACCENT))],
        ) + diff_page(shown_diff(whole_diff(lines(old_string), lines(new_string)))),
        DetailView::Other => head,
    }
}

/// What the user is asked; see [`question_page`].
pub fn question_lines(action: &PendingAction) -> (r: Vec<Line>)
    ensures
        line_views(r@) == question_page(action@),
{
    let mut r: Vec<Line> = Vec::new();
    r.push(Line::of(Span::styled(action.summary.as_str(), Style::fg(C_WARN))));
    r.push(Line::empty());
    match &action.detail {
        PendingDetail::Bash { command } => {
            let text = cat2("$ ", command.as_str());
            r.push(Line::of(Span::styled(text.as_str(), Style::fg(C_ACCENT))));
        },
        PendingDetail::FileEdit { path, old_string, new_string } => {
            let text = cat2("文件: ", path.as_str());
            r.push(Line::of(Span::styled(text.as_str(), Style::fg(C_ACCENT))));
            let d = line_diff(old_string.as_str(), new_string.as_str());
            let mut more = styled_diff_lines(&d);
            let ghost a = r@;
            let ghost b = more@;
            r.append(&mut more);
            assert(line_views(r@) =~= line_views(a) + line_views(b));
            assert(line_views(a) =~= seq![
                seq![styled_span(action@.summary, fg_style(C_WARN))],
                Seq::empty(),
                seq![styled_span("文件: "@ + path@, fg_style(C_ACCENT))],
            ]);
        },
        PendingDetail::Other => {},
    }
    assert(line_views(r@) =~= question_page(action@));
    r
}

/// The title of the question.
pub fn question_title(action: &PendingAction) -> (r: String)
    ensures
        r@ == " 确认操作 ["@ + action@.tool_name + "] "@,
{
    cat3(" 确认操作 [", action.tool_name.as_str(), "] ")
}

/// How far the question is scrolled, and how far it can be, in a window of so many columns and rows.
pub open spec fn question_scroll(a: PendingView, width: int, height: int, scroll: int) -> (int, int) {
    let most = minus(total_rows(question_page(a), width) as int, height);
    (
        if scroll < most {
            scroll
        } else {
            most
        },
        most,
    )
}

/// How far the question is scrolled, and how far it can be; see [`question_scroll`].
pub fn question_window(action: &PendingAction, width: usize, height: usize, scroll: usize) -> (r: (
    usize,
    usize,
))
    ensures
        (r.0 as int, r.1 as int) == question_scroll(
            action@,
            width as int,
            height as int,
            scroll as int,
        ),
{
    let ls = question_lines(action);
    let most = count_rows(&ls, width).saturating_sub(height);
    (
        if scroll < most {
            scroll
        } else {
            most
        },
        most,
    )
}

/// What the keys do, and how far one has scrolled where one can.
pub fn question_hint(scroll: usize, most: usize) -> (r: String)
    ensures
        r@ == (if most > 0 {
            "[y] 允许   [n/Esc] 拒绝   ↑↓ 滚动查看("@ + dec(scroll as nat) + "/"@ + dec(most as nat)
                + ")"@
        } else {
            "[y] 允许   [n/Esc] 拒绝"@
        }),
{
    if most > 0 {
        let a = dec_text(scroll as u64);
        let b = dec_text(most as u64);
        cat5("[y] 允许   [n/Esc] 拒绝   ↑↓ 滚动查看(", a.as_str(), "/", b.as_str(), ")")
    } else {
        "[y] 允许   [n/Esc] 拒绝".to_owned()
    }
}

// ---- laws ----

/// Without scrolling the last rows are seen, as many as there is room for; and however far one
/// scrolls, one comes to the first row and not beyond.
pub proof fn law_window_ends(total: int, visible: int, scroll: int)
    requires
        0 <= total,
        0 <= visible,
        0 <= scroll,
    ensures
        rows_above(total, visible, 0) == minus(total, visible),
        0 <= rows_above(total, visible, scroll) <= minus(total, visible),
        scroll >= total ==> rows_above(total, visible, scroll) == 0,
{
}

/// The rows of lines before line `i`.
pub open spec fn rows_before(ls: Seq<Seq<SpanView>>, width: int, i: int) -> int
    decreases i,
{
    if i <= 0 {
        0
    } else {
        rows_before(ls, width, i - 1) + rows_of(ls[i - 1], width)
    }
}

proof fn lemma_first_seen(ls: Seq<Seq<SpanView>>, width: int, i: int, above: int)
    requires
        0 <= i <= ls.len(),
        0 <= above,
    ensures
        ({
            let (start, skip) = first_seen(ls, width, i, above);
            &&& i <= start <= ls.len()
            &&& 0 <= skip
            &&& rows_before(ls, width, start) + skip == rows_before(ls, width, i) + above
            &&& start < ls.len() ==> skip < rows_of(ls[start], width)
        }),
    decreases ls.len() - i,
{
    if i < ls.len() && rows_of(ls[i], width) <= above {
        lemma_first_seen(ls, width, i + 1, above - rows_of(ls[i], width));
    }
}

/// The window begins exactly where it is to begin: as many rows as are to stand above it are those
/// of the lines before its first and those of its first line that are passed over.
pub proof fn law_window_begins_where_it_should(ls: Seq<Seq<SpanView>>, width: int, above: int)
    requires
        0 <= above,
    ensures
        ({
            let (start, skip) = first_seen(ls, width, 0, above);
            &&& 0 <= start <= ls.len()
            &&& rows_before(ls, width, start) + skip == above
            &&& start < ls.len() ==> 0 <= skip < rows_of(ls[start], width)
        }),
{
    lemma_first_seen(ls, width, 0, above);
}

/// The text of the rows of an item, without what they are indented by.
pub open spec fn rows_text(rows: Seq<Seq<char>>, indent: int) -> Seq<char>
    decreases rows.len(),
{
    if rows.len() == 0 {
        Seq::empty()
    } else if rows.len() == 1 {
        rows[0]
    } else {
        rows_text(rows.drop_last(), indent) + rows.last().skip(indent)
    }
}

proof fn lemma_repeat_len(n: nat)
    ensures
        repeat(" "@, n).len() == n,
    decreases n,
{
    reveal_strlit(" ");
    if n > 0 {
        lemma_repeat_len((n - 1) as nat);
    }
}

proof fn lemma_filled(s: Seq<char>, width: int, indent: int)
    requires
        0 <= indent,
    ensures
        rows_text(item_rows(s, width, indent), indent) == s,
        filled(s, width, indent).full.len() > 0 ==> filled(s, width, indent).row.len() >= indent,
    decreases s.len(),
{
    let f = filled(s, width, indent);
    if s.len() == 0 {
        assert(f.full.push(f.row)[0] =~= s);
    } else {
        let t = s.drop_last();
        let c = s.last();
        let g = filled(t, width, indent);
        lemma_filled(t, width, indent);
        lemma_repeat_len(indent as nat);
        let before = g.full.push(g.row);
        let after = f.full.push(f.row);
        assert(t.push(c) =~= s);
        if g.cur + item_cols(c) > width && g.cur > indent {
            assert(after.drop_last() =~= before);
            assert(after.last().skip(indent) =~= seq![c]);
            assert(t + seq![c] =~= s);
        } else {
            assert(after.drop_last() =~= g.full);
            assert(before.drop_last() =~= g.full);
            if g.full.len() == 0 {
                assert(after[0] =~= g.row.push(c));
            } else {
                assert(g.row.push(c).skip(indent) =~= g.row.skip(indent).push(c));
                assert(rows_text(g.full, indent) + g.row.skip(indent).push(c) =~= (rows_text(
                    g.full,
                    indent,
                ) + g.row.skip(indent)).push(c));
            }
        }
    }
}

/// Nothing of an item is cut off: its rows hold all of its text, in order.
pub proof fn law_items_are_whole(s: Seq<char>, width: int, indent: int)
    requires
        0 <= indent,
    ensures
        rows_text(item_rows(s, width, indent), indent) == s,
{
    lemma_filled(s, width, indent);
}


proof fn lemma_unescaped_run(s: Seq<char>, i: int, j: int, inside: bool)
    requires
        0 <= i <= j <= s.len(),
        !inside ==> forall|k: int| i <= k < j ==> #[trigger] s[k] != '\x1b',
        inside ==> forall|k: int| i <= k < j ==> !is_letter(#[trigger] s[k]),
    ensures
        !inside ==> unescaped(s, i, false) == s.subrange(i, j) + unescaped(s, j, false),
        inside ==> unescaped(s, i, true) == unescaped(s, j, true),
    decreases j - i,
{
    if i < j {
        lemma_unescaped_run(s, i + 1, j, inside);
        if inside {
            assert(!is_letter(s[i]));
        } else {
            assert(s[i] != '\x1b');
            assert(seq![s[i]] + (s.subrange(i + 1, j) + unescaped(s, j, false)) =~= s.subrange(i, j)
                + unescaped(s, j, false));
        }
    } else if !inside {
        assert(s.subrange(i, j) + unescaped(s, j, false) =~= unescaped(s, j, false));
    }
}

/// An escape sequence, from its escape character to the first letter, is left out, and what stands
/// around it stays.
pub proof fn law_escapes_are_left_out(a: Seq<char>, code: Seq<char>, letter: char, b: Seq<char>)
    requires
        !a.contains('\x1b'),
        !b.contains('\x1b'),
        'a' <= letter <= 'z' || 'A' <= letter <= 'Z',
        forall|i: int| 0 <= i < code.len() ==> !is_letter(#[trigger] code[i]),
    ensures
        unescaped(a + seq!['\x1b'] + code + seq![letter] + b, 0, false) == a + b,
{
    let s = a + seq!['\x1b'] + code + seq![letter] + b;
    let n = a.len() as int;
    let m = n + 1 + code.len();
    let end = s.len() as int;
    assert forall|k: int| 0 <= k < n implies #[trigger] s[k] != '\x1b' by {
        assert(s[k] == a[k] && a.contains(a[k]));
    }
    assert forall|k: int| n + 1 <= k < m implies !is_letter(#[trigger] s[k]) by {
        assert(s[k] == code[k - n - 1]);
    }
    assert forall|k: int| m + 1 <= k < end implies #[trigger] s[k] != '\x1b' by {
        assert(s[k] == b[k - m - 1] && b.contains(b[k - m - 1]));
    }
    lemma_unescaped_run(s, 0, n, false);
    assert(s[n] == '\x1b');
    lemma_unescaped_run(s, n + 1, m, true);
    assert(s[m] == letter);
    lemma_unescaped_run(s, m + 1, end, false);
    assert(s.subrange(0, n) =~= a);
    assert(s.subrange(m + 1, end) =~= b);
    assert(unescaped(s, end, false) =~= Seq::empty());
    assert(unescaped(s, 0, false) =~= a + b);
}

/// How full the context is, in whole percent rounded down, and never more than a hundred.
pub proof fn law_percent(used: u64, limit: u64)
    requires
        limit > 0,
    ensures
        used <= limit ==> percent(used, limit) * limit <= used * 100 < (percent(used, limit) + 1)
            * limit,
        used >= limit ==> percent(used, limit) == 100,
        0 <= percent(used, limit) <= 100,
{
    let n = used as int * 100;
    let l = limit as int;
    let p = n / l;
    assert(p * l <= n < (p + 1) * l) by (nonlinear_arith)
        requires
            l > 0,
            p == n / l,
            n >= 0,
    ;
    assert(used >= limit ==> p >= 100) by (nonlinear_arith)
        requires
            l == limit,
            n == used * 100,
            l > 0,
            p == n / l,
    ;
    assert(used <= limit ==> p <= 100) by (nonlinear_arith)
        requires
            l == limit,
            n == used * 100,
            l > 0,
            p == n / l,
    ;
    assert(p >= 0) by (nonlinear_arith)
        requires
            l > 0,
            n >= 0,
            p == n / l,
    ;
}

/// The colour of the context's note warns from eighty percent on.
pub proof fn law_full_context_warns(used: u64, limit: u64)
    requires
        limit > 0,
    ensures
        used * 100 >= 80 * limit ==> context_span(Some((used, limit))).style.fg == Some(C_WARN),
        used * 100 < 80 * limit ==> context_span(Some((used, limit))).style.fg == Some(C_DIM),
{
    law_percent(used, limit);
    let p = percent(used, limit);
    assert(used <= limit && used * 100 >= 80 * limit ==> p >= 80) by (nonlinear_arith)
        requires
            limit > 0,
            used <= limit ==> used * 100 < (p + 1) * limit,
    ;
    assert(used <= limit && used * 100 < 80 * limit ==> p < 80) by (nonlinear_arith)
        requires
            limit > 0,
            used <= limit ==> p * limit <= used * 100,
    ;
}

/// Every command that may be meant stands in the menu, in order, and the chosen one alone is bold.
pub proof fn law_menu_shows_every_command(names: Seq<Seq<char>>, sel: int, n: int, i: int)
    requires
        0 <= i < n <= names.len(),
    ensures
        menu_spans(names, sel, n).len() == 2 * n,
        menu_spans(names, sel, n)[2 * i].content == names[i],
        menu_spans(names, sel, n)[2 * i].style.bold == (i == sel),
    decreases n,
{
    if n > 1 {
        law_menu_shows_every_command(names, sel, n - 1, 0);
    }
    if i < n - 1 {
        law_menu_shows_every_command(names, sel, n - 1, i);
    } else {
        lemma_menu_len(names, sel, n - 1);
    }
}

proof fn lemma_menu_len(names: Seq<Seq<char>>, sel: int, n: int)
    requires
        0 <= n,
    ensures
        menu_spans(names, sel, n).len() == 2 * n,
    decreases n,
{
    if n > 0 {
        lemma_menu_len(names, sel, n - 1);
    }
}

/// What words take on a row, each with the blank behind it.
pub open spec fn cols_with_blanks(words: Seq<Seq<char>>) -> int
    decreases words.len(),
{
    if words.len() == 0 {
        0
    } else {
        cols_with_blanks(words.drop_last()) + if text_cols(words.last()) == 0 {
            0
        } else {
            text_cols(words.last()) + 1
        }
    }
}

proof fn lemma_one_row(words: Seq<Seq<char>>, width: int)
    requires
        cols_with_blanks(words) <= width,
    ensures
        words_wrapped(words, width).rows == 1,
        words_wrapped(words, width).cur == cols_with_blanks(words),
        0 <= cols_with_blanks(words),
    decreases words.len(),
{
    if words.len() > 0 {
        lemma_one_row(words.drop_last(), width);
    }
}

/// A line whose words fit a row, each with a blank behind it, takes one row.
pub proof fn law_short_lines_take_one_row(line: Seq<SpanView>, width: int)
    requires
        cols_with_blanks(split(text_of(line), ' ')) <= width,
    ensures
        rows_of(line, width) == 1,
{
    lemma_one_row(split(text_of(line), ' '), width);
}

/// A word that finds no room on a row begins the next; one that does stays on it; and one that is
/// wider than a row takes as many more as it fills.
pub proof fn law_words_go_on_the_next_row(w: Wrapped, word: Seq<char>, width: int)
    requires
        0 <= w.cur <= width,
        w.rows < usize::MAX,
    ensures
        ({
            let n = text_cols(word) as int;
            &&& n == 0 ==> word_wrapped(w, word, width) == w
            &&& 0 < n && w.cur + n < width ==> word_wrapped(w, word, width) == (Wrapped {
                rows: w.rows,
                cur: w.cur + n + 1,
            })
            &&& 0 < n < width && w.cur + n > width ==> word_wrapped(w, word, width) == (Wrapped {
                rows: (w.rows + 1) as usize,
                cur: n + 1,
            })
            &&& 0 < n <= width && w.cur + n == width ==> word_wrapped(w, word, width) == (Wrapped {
                rows: (w.rows + 1) as usize,
                cur: 1,
            })
        }),
{
}

/// The first row of an item begins with its mark, which tells how far it is.
pub proof fn law_items_have_their_marks(t: TodoView, width: int)
    ensures
        item_lines(t, width).len() > 0,
        t.status == TodoStatus::Pending ==> item_lines(t, width)[0][0].content == "○"@ + " "@,
        t.status == TodoStatus::InProgress ==> item_lines(t, width)[0][0].content == "◐"@ + " "@,
        t.status == TodoStatus::Completed ==> item_lines(t, width)[0][0].content == "◉"@ + " "@,
{
}

/// Every item of the list is shown, one behind the other, with an empty line between two.
pub proof fn law_list_shows_every_item(ts: Seq<TodoView>, t: TodoView, width: int)
    ensures
        todo_page(Seq::empty(), width).len() == 0,
        todo_page(seq![t], width) == item_lines(t, width),
        ts.len() > 0 ==> todo_page(ts.push(t), width) == todo_page(ts, width) + seq![Seq::empty()]
            + item_lines(t, width),
{
    assert(ts.push(t).drop_last() =~= ts);
    let page = todo_page(ts, width);
    assert(page.push(Seq::empty()) =~= page + seq![Seq::empty()]);
}

/// What the user is asked stands there: what is to be done, and the command that would be run, or
/// the file that would be changed and what would change in it.
pub proof fn law_question_shows_the_action(a: PendingView)
    ensures
        ({
            let page = question_page(a);
            &&& page[0].len() == 1 && page[0][0].content == a.summary
            &&& (a.detail matches DetailView::Bash { command } ==> page.len() == 3 && page[2].len() == 1
                && page[2][0].content == "$ "@ + command)
            &&& (a.detail matches DetailView::FileEdit { path, old_string, new_string } ==> {
                let d = shown_diff(whole_diff(lines(old_string), lines(new_string)));
                &&& page.len() == 3 + d.len()
                &&& page[2][0].content == "文件: "@ + path
                &&& forall|i: int|
                    0 <= i < d.len() ==> (#[trigger] page[3 + i]).len() == 1 && tells(
                        page[3 + i][0].content,
                        d[i],
                    )
            })
            &&& a.detail is Other ==> page.len() == 2
        }),
{
}

/// Whether a text is a line of a difference, with the sign of what is done to it.
pub open spec fn tells(text: Seq<char>, d: DiffView) -> bool {
    match d {
        DiffView::Add(s) => text == "+ "@ + s,
        DiffView::Del(s) => text == "- "@ + s,
        DiffView::Ctx(s) => text == "  "@ + s,
    }
}

/// Every field of an open group stands on its page with its label and what it holds, and the one
/// that is chosen is marked.
pub proof fn law_group_shows_every_field(v: AppView, i: int)
    requires
        v.settings is Some,
        (v.settings->0).1.in_detail,
        0 <= i < fields_of((v.settings->0).1.selected as int).len(),
    ensures
        ({
            let (s, p) = v.settings->0;
            let line = settings_page(v)[2 + i];
            let label = fields_of(p.selected as int)[i].0;
            &&& line.len() == 3
            &&& line[2].content == field_text(s, p.selected as int, i)
            &&& p.field_sel == i && !p.editing ==> line[0].content == "> "@ + label
            &&& p.field_sel != i || p.editing ==> line[0].content == "  "@ + label
        }),
{
    let (s, p) = v.settings->0;
    assert(settings_page(v)[2 + i] == field_line(s, p, i));
}

/// The cursor stands behind the prompt and what is typed before it, and never outside of the box.
pub proof fn law_cursor_stands_behind_the_text(x: int, width: int, before: Seq<char>)
    requires
        0 <= x,
        width >= 1,
    ensures
        2 + text_cols(before) < width ==> cursor_column(x, width, before) == x + 2 + text_cols(before),
        2 + text_cols(before) >= width ==> cursor_column(x, width, before) == x + width - 1,
{
}

/// The status line tells the status, how far one has scrolled back where one has, and the tokens.
pub proof fn law_status_line_tells(v: AppView)
    ensures
        ({
            let l = status_spans(v);
            &&& l[0].content == v.status
            &&& v.scroll == 0 ==> l.len() == 3
            &&& v.scroll > 0 ==> l.len() == 5 && l[2].content == "↑ 回看 "@ + dec(v.scroll as nat)
                + " 行(PgDn 回到底部)"@
            &&& (v.usage matches Some(u) ==> l.last().content == u)
        }),
{
}


/// Lines take the rows that each of them takes; and of a question one can scroll as far as its last
/// row stands at the foot of the window, and not farther.
pub proof fn law_question_scrolls_to_its_end(
    ls: Seq<Seq<SpanView>>,
    l: Seq<SpanView>,
    a: PendingView,
    width: int,
    height: int,
    scroll: int,
)
    requires
        0 <= height,
        0 <= scroll,
    ensures
        total_rows(Seq::empty(), width) == 0,
        total_rows(ls, width) + rows_of(l, width) <= usize::MAX ==> total_rows(ls.push(l), width)
            == total_rows(ls, width) + rows_of(l, width),
        ({
            let n = total_rows(question_page(a), width);
            let (at, most) = question_scroll(a, width, height, scroll);
            &&& n <= height ==> at == 0 && most == 0
            &&& n > height ==> most == n - height
            &&& scroll <= most ==> at == scroll
            &&& scroll > most ==> at == most
        }),
{
    assert(ls.push(l).drop_last() =~= ls);
}

/// The chosen one is the one that was chosen, or the last where there are fewer.
pub proof fn law_choice_is_among_the_names(names: Seq<Seq<char>>, sel: usize)
    requires
        names.len() > 0,
    ensures
        0 <= chosen(names, sel) < names.len(),
        sel < names.len() ==> chosen(names, sel) == sel,
        sel >= names.len() ==> chosen(names, sel) == names.len() - 1,
{
}

} // verus!
