//! Markdown as styled lines.
//!
//! The marks are those of the line mode. Tables are added: their columns are as wide as their widest
//! cells, so the lines of a table are kept back until the table ends.
use vstd::prelude::*;
use vstd::string::*;
use crate::text::{
    begins_with, cat3, clone_texts, join, join_texts, lemma_split_add, lemma_split_push,
    lemma_split_whole, repeat, repeated, split, split_char, sub_text, to_chars, trim, trim_start,
    trimmed, trimmed_start, views,
};
use crate::tui::line::{
    fg_bg_style, fg_style, lemma_text_add, line_views, push_line, push_span, push_spans, raw_span,
    span_views, styled_span, text_of, Line, Span, SpanView, Style,
};
use crate::ui::inline::{find_piece, no_marks, piece_at, unmarked, unmarked_text, Marks, Piece};
use crate::ui::markdown::{heading, heading_text, is_fence, is_item, item_text, markless};
use crate::ui::theme::{C_ACCENT, C_BORDER, C_CODE, C_CODE_BG, C_DIM};
use crate::ui::width::{str_width, text_cols};

verus! {

// ---- inside a line ----

/// The style of text between marks. Code has a style of its own.
pub open spec fn mark_style(m: Marks) -> Style {
    if m.code {
        fg_bg_style(C_CODE, C_CODE_BG)
    } else {
        Style { fg: None, bg: None, bold: m.bold, italic: m.italic }
    }
}

/// Text that has come together under marks, as a span; none where there is no text.
pub open spec fn run(buf: Seq<char>, m: Marks) -> Seq<SpanView> {
    if buf.len() == 0 {
        Seq::empty()
    } else {
        seq![styled_span(buf, mark_style(m))]
    }
}

/// A line from `i` on as spans, behind text that has come together already.
pub open spec fn spans_from(s: Seq<char>, i: int, m: Marks, buf: Seq<char>) -> Seq<SpanView>
    decreases s.len() - i,
{
    if i >= s.len() {
        run(buf, m)
    } else {
        match piece_at(s, i, m) {
            Piece::Text => spans_from(s, i + 1, m, buf.push(s[i])),
            Piece::Mark(n) => run(buf, m) + spans_from(s, i + 1, n, Seq::empty()),
            Piece::Double(n) => run(buf, m) + spans_from(s, i + 2, n, Seq::empty()),
        }
    }
}

/// A line as spans, with its marks made styles.
pub open spec fn inline(s: Seq<char>) -> Seq<SpanView> {
    spans_from(s, 0, no_marks(), Seq::empty())
}

fn flush(spans: &mut Vec<Span>, buf: &String, m: Marks)
    ensures
        span_views(final(spans)@) == span_views(old(spans)@) + run(buf@, m),
{
    if buf.as_str().is_empty() {
        assert(span_views(spans@) + Seq::<SpanView>::empty() =~= span_views(spans@));
        return;
    }
    let style = if m.code {
        Style::fg_bg(C_CODE, C_CODE_BG)
    } else {
        Style { fg: None, bg: None, bold: m.bold, italic: m.italic }
    };
    push_span(spans, Span::styled(buf.as_str(), style));
    assert(span_views(spans@) =~= span_views(old(spans)@) + run(buf@, m));
}

/// A line as spans; see [`inline`].
pub fn inline_spans(s: &str) -> (r: Vec<Span>)
    ensures
        span_views(r@) == inline(s@),
{
    let v = to_chars(s);
    let n: usize = v.len();
    let mut spans: Vec<Span> = Vec::new();
    let mut buf = String::new();
    let mut m = unmarked();
    let mut i: usize = 0;
    assert(span_views(spans@) =~= Seq::empty());
    assert(span_views(spans@) + inline(s@) =~= inline(s@));
    while i < n
        invariant
            i <= n,
            n == v@.len(),
            v@ == s@,
            span_views(spans@) + spans_from(s@, i as int, m, buf@) == inline(s@),
        decreases n - i,
    {
        let ghost before = span_views(spans@);
        let ghost rest = spans_from(s@, i as int, m, buf@);
        match find_piece(v.as_slice(), i, m) {
            Piece::Text => {
                buf.push(v[i]);
                i = i + 1;
            },
            Piece::Mark(next) => {
                flush(&mut spans, &buf, m);
                buf = String::new();
                m = next;
                i = i + 1;
                assert(span_views(spans@) + spans_from(s@, i as int, m, buf@) =~= before + rest);
            },
            Piece::Double(next) => {
                flush(&mut spans, &buf, m);
                buf = String::new();
                m = next;
                i = i + 2;
                assert(span_views(spans@) + spans_from(s@, i as int, m, buf@) =~= before + rest);
            },
        }
    }
    flush(&mut spans, &buf, m);
    spans
}

// ---- a line ----

/// A line outside a fence: a heading is bold, an item has a dot, and inside each, as in any other
/// line, marks are styles.
pub open spec fn plain_spans(t: Seq<char>) -> Seq<SpanView> {
    if heading(t).len() > 0 {
        in_bold(inline(heading(t)))
    } else if is_item(t) {
        seq![styled_span("•"@, fg_style(C_ACCENT)), raw_span(" "@)] + inline(t.skip(2))
    } else {
        inline(t)
    }
}

fn plain_line_spans(t: &str) -> (r: Vec<Span>)
    ensures
        span_views(r@) == plain_spans(t@),
{
    let head = heading_text(t);
    let mut r: Vec<Span> = Vec::new();
    assert(span_views(r@) =~= Seq::empty());
    if !head.as_str().is_empty() {
        return bold_spans(inline_spans(head.as_str()));
    }
    match item_text(t) {
        Some(rest) => {
            push_span(&mut r, Span::styled("•", Style::fg(C_ACCENT)));
            push_span(&mut r, Span::raw(" "));
            push_spans(&mut r, inline_spans(rest.as_str()));
            assert(span_views(r@) =~= plain_spans(t@));
            r
        },
        None => inline_spans(t),
    }
}

// ---- tables ----

/// Whether a line is a row of a table: it begins and ends with a bar.
pub open spec fn is_table_row(t: Seq<char>) -> bool {
    t.len() > 1 && t[0] == '|' && t.last() == '|'
}

/// `s` without the bars it begins with.
pub open spec fn without_bars_before(s: Seq<char>) -> Seq<char>
    decreases s.len(),
{
    if s.len() > 0 && s[0] == '|' {
        without_bars_before(s.skip(1))
    } else {
        s
    }
}

/// `s` without the bars it ends with.
pub open spec fn without_bars_behind(s: Seq<char>) -> Seq<char>
    decreases s.len(),
{
    if s.len() > 0 && s.last() == '|' {
        without_bars_behind(s.drop_last())
    } else {
        s
    }
}

/// The cells of a row.
pub open spec fn cells_of(t: Seq<char>) -> Seq<Seq<char>> {
    split(without_bars_behind(without_bars_before(t)), '|').map_values(|c: Seq<char>| trim(c))
}

/// A cell of the row between the head of a table and the rest.
pub open spec fn is_rule(c: Seq<char>) -> bool {
    c.len() > 0 && c.contains('-') && forall|i: int|
        0 <= i < c.len() ==> (#[trigger] c[i] == '-' || c[i] == ':')
}

/// Whether a row is the one between the head of a table and the rest.
pub open spec fn all_rules(cells: Seq<Seq<char>>) -> bool {
    cells.len() > 0 && forall|i: int| 0 <= i < cells.len() ==> is_rule(#[trigger] cells[i])
}

/// A row: its cells; nothing for the one between the head and the rest.
pub open spec fn row_of(t: Seq<char>) -> Option<Seq<Seq<char>>> {
    if all_rules(cells_of(t)) {
        None
    } else {
        Some(cells_of(t))
    }
}

/// The views of rows.
pub open spec fn row_views(v: Seq<Option<Vec<String>>>) -> Seq<Option<Seq<Seq<char>>>> {
    Seq::new(
        v.len(),
        |i: int|
            match v[i] {
                Some(c) => Some(views(c@)),
                None => None,
            },
    )
}

/// How many cells the longest row has.
pub open spec fn columns(rows: Seq<Option<Seq<Seq<char>>>>) -> nat
    decreases rows.len(),
{
    if rows.len() == 0 {
        0
    } else {
        let n = columns(rows.drop_last());
        match rows.last() {
            Some(c) => if c.len() > n {
                c.len()
            } else {
                n
            },
            None => n,
        }
    }
}

/// How wide the widest cell of a column is.
pub open spec fn column_width(rows: Seq<Option<Seq<Seq<char>>>>, i: int) -> nat
    decreases rows.len(),
{
    if rows.len() == 0 {
        0
    } else {
        let w = column_width(rows.drop_last(), i);
        match rows.last() {
            Some(c) => if 0 <= i < c.len() && text_cols(c[i]) > w {
                text_cols(c[i]) as nat
            } else {
                w
            },
            None => w,
        }
    }
}

/// How wide spans are, one by one.
pub open spec fn spans_width(spans: Seq<SpanView>) -> nat
    decreases spans.len(),
{
    if spans.len() == 0 {
        0
    } else {
        spans_width(spans.drop_last()) + text_cols(spans.last().content) as nat
    }
}

/// The cell of a row in a column; an empty one where the row is short.
pub open spec fn cell_at(cells: Seq<Seq<char>>, i: int) -> Seq<char> {
    if 0 <= i < cells.len() {
        cells[i]
    } else {
        Seq::empty()
    }
}

/// Whether every cell, as it is shown, has room in its column, and the columns can be counted.
pub open spec fn table_fits(rows: Seq<Option<Seq<Seq<char>>>>) -> bool {
    &&& forall|i: int|
        0 <= i < columns(rows) ==> #[trigger] column_width(rows, i) + 2 <= usize::MAX
    &&& forall|r: int, i: int|
        0 <= r < rows.len() && 0 <= i < columns(rows) && rows[r] is Some ==> spans_width(
            inline(#[trigger] cell_at(rows[r]->0, i)),
        ) <= column_width(rows, i)
}

/// A bar between cells.
pub open spec fn bar() -> SpanView {
    styled_span("│"@, fg_style(C_ACCENT))
}

/// Spans in bold.
pub open spec fn in_bold(spans: Seq<SpanView>) -> Seq<SpanView> {
    spans.map_values(
        |s: SpanView| SpanView { content: s.content, style: Style { bold: true, ..s.style } },
    )
}

/// A cell as it is shown.
pub open spec fn cell_spans(cell: Seq<char>, header: bool) -> Seq<SpanView> {
    if header {
        in_bold(inline(cell))
    } else {
        inline(cell)
    }
}

/// The blanks behind a cell.
pub open spec fn padding(
    rows: Seq<Option<Seq<Seq<char>>>>,
    cells: Seq<Seq<char>>,
    i: int,
) -> nat {
    (column_width(rows, i) - spans_width(inline(cell_at(cells, i))) + 1) as nat
}

/// The first `n` cells of a row, each filled up to the width of its column.
pub open spec fn row_spans(
    rows: Seq<Option<Seq<Seq<char>>>>,
    cells: Seq<Seq<char>>,
    header: bool,
    n: int,
) -> Seq<SpanView>
    decreases n,
{
    if n <= 0 {
        seq![bar()]
    } else {
        let i = n - 1;
        row_spans(rows, cells, header, i) + seq![raw_span(" "@)] + cell_spans(
            cell_at(cells, i),
            header,
        ) + seq![raw_span(repeat(" "@, padding(rows, cells, i))), bar()]
    }
}

/// The line between the head of a table and the rest.
pub open spec fn rule_text(rows: Seq<Option<Seq<Seq<char>>>>) -> Seq<char> {
    "├"@ + join(
        Seq::new(columns(rows), |i: int| repeat("─"@, column_width(rows, i) + 2)),
        "┼"@,
    ) + "┤"@
}

/// Whether the first row is the head of the table: the line between head and rest follows it.
pub open spec fn has_head(rows: Seq<Option<Seq<Seq<char>>>>) -> bool {
    rows.len() > 1 && rows[1] is None
}

/// A row as it is shown.
pub open spec fn table_line(rows: Seq<Option<Seq<Seq<char>>>>, r: int) -> Seq<SpanView> {
    match rows[r] {
        None => seq![styled_span(rule_text(rows), fg_style(C_BORDER))],
        Some(cells) => row_spans(rows, cells, r == 0 && has_head(rows), columns(rows) as int),
    }
}

/// A table as it is shown.
pub open spec fn table_lines(rows: Seq<Option<Seq<Seq<char>>>>) -> Seq<Seq<SpanView>> {
    if columns(rows) == 0 {
        Seq::empty()
    } else {
        Seq::new(rows.len(), |r: int| table_line(rows, r))
    }
}

fn is_row(t: &str) -> (r: bool)
    ensures
        r == is_table_row(t@),
{
    let v = to_chars(t);
    v.len() > 1 && v[0] == '|' && v[v.len() - 1] == '|'
}

fn strip_bars(t: &str) -> (r: String)
    ensures
        r@ == without_bars_behind(without_bars_before(t@)),
{
    let v = to_chars(t);
    let n: usize = v.len();
    let mut from: usize = 0;
    assert(v@.skip(0) =~= v@);
    while from < n && v[from] == '|'
        invariant
            from <= n,
            n == v@.len(),
            without_bars_before(v@) == without_bars_before(v@.skip(from as int)),
        decreases n - from,
    {
        assert(v@.skip(from as int).skip(1) =~= v@.skip(from + 1));
        from = from + 1;
    }
    let ghost rest = v@.skip(from as int);
    assert(without_bars_before(v@) == rest);
    let mut to: usize = n;
    assert(rest.take(to - from) =~= rest);
    while to > from && v[to - 1] == '|'
        invariant
            from <= to <= n,
            n == v@.len(),
            rest == v@.skip(from as int),
            without_bars_behind(rest) == without_bars_behind(rest.take(to - from)),
        decreases to,
    {
        assert(rest.take(to - from).drop_last() =~= rest.take(to - from - 1));
        to = to - 1;
    }
    let r = sub_text(v.as_slice(), from, to);
    assert(r@ =~= rest.take(to - from));
    r
}

fn is_rule_cell(c: &str) -> (r: bool)
    ensures
        r == is_rule(c@),
{
    let v = to_chars(c);
    let mut dash = false;
    let mut i: usize = 0;
    while i < v.len()
        invariant
            i <= v@.len(),
            v@ == c@,
            dash == exists|k: int| 0 <= k < i && c@[k] == '-',
            forall|k: int| 0 <= k < i ==> (#[trigger] c@[k] == '-' || c@[k] == ':'),
        decreases v@.len() - i,
    {
        let x = v[i];
        if x != '-' && x != ':' {
            assert(!(c@[i as int] == '-' || c@[i as int] == ':'));
            return false;
        }
        if x == '-' {
            assert(c@[i as int] == '-');
            dash = true;
        }
        i = i + 1;
    }
    proof {
        if c@.contains('-') {
            let k = choose|k: int| 0 <= k < c@.len() && c@[k] == '-';
            assert(dash);
        }
        if dash {
            let k = choose|k: int| 0 <= k < i && c@[k] == '-';
            assert(c@.contains('-'));
        }
    }
    v.len() > 0 && dash
}

fn parse_table_row(t: &str) -> (r: Option<Vec<String>>)
    ensures
        match r {
            Some(c) => row_of(t@) == Some(views(c@)),
            None => row_of(t@) is None,
        },
{
    let parts = split_char(strip_bars(t).as_str(), '|');
    let ghost want = cells_of(t@);
    let mut cells: Vec<String> = Vec::new();
    let mut rules = true;
    let mut i: usize = 0;
    while i < parts.len()
        invariant
            i <= parts@.len(),
            want == views(parts@).map_values(|c: Seq<char>| trim(c)),
            cells@.len() == i,
            forall|k: int| 0 <= k < i ==> (#[trigger] cells@[k])@ == want[k],
            rules == forall|k: int| 0 <= k < i ==> is_rule(#[trigger] want[k]),
        decreases parts@.len() - i,
    {
        let c = trimmed(parts[i].as_str());
        assert(c@ == want[i as int]);
        if !is_rule_cell(c.as_str()) {
            assert(!is_rule(want[i as int]));
            rules = false;
        }
        cells.push(c);
        i = i + 1;
    }
    assert(views(cells@) =~= want);
    if cells.len() > 0 && rules {
        None
    } else {
        Some(cells)
    }
}

fn count_columns(rows: &Vec<Option<Vec<String>>>) -> (r: usize)
    ensures
        r == columns(row_views(rows@)),
{
    let ghost all = row_views(rows@);
    let mut n: usize = 0;
    let mut i: usize = 0;
    assert(all.take(0) =~= Seq::empty());
    while i < rows.len()
        invariant
            i <= rows@.len(),
            all == row_views(rows@),
            n == columns(all.take(i as int)),
        decreases rows@.len() - i,
    {
        assert(all.take(i + 1).drop_last() =~= all.take(i as int));
        assert(all.take(i + 1).last() == all[i as int]);
        if let Some(c) = &rows[i] {
            assert(all[i as int] == Some(views(c@)));
            if c.len() > n {
                n = c.len();
            }
        }
        i = i + 1;
    }
    assert(all.take(i as int) =~= all);
    n
}

proof fn lemma_columns(rows: Seq<Option<Seq<Seq<char>>>>, k: int, r: int)
    requires
        0 <= r < k <= rows.len(),
        rows[r] is Some,
    ensures
        rows[r]->0.len() <= columns(rows.take(k)),
    decreases k,
{
    assert(rows.take(k).drop_last() =~= rows.take(k - 1));
    if r < k - 1 {
        lemma_columns(rows, k - 1, r);
    } else {
        assert(rows.take(k).last() == rows[r]);
    }
}

fn column_widths(rows: &Vec<Option<Vec<String>>>, n: usize) -> (r: Vec<usize>)
    requires
        n == columns(row_views(rows@)),
    ensures
        r@.len() == n,
        forall|i: int| 0 <= i < n ==> #[trigger] r@[i] == column_width(row_views(rows@), i),
{
    let ghost all = row_views(rows@);
    let mut w: Vec<usize> = Vec::new();
    let mut k: usize = 0;
    while k < n
        invariant
            k <= n,
            w@.len() == k,
            forall|i: int| 0 <= i < k ==> #[trigger] w@[i] == 0,
        decreases n - k,
    {
        w.push(0);
        k = k + 1;
    }
    let mut r: usize = 0;
    assert(all.take(0) =~= Seq::empty());
    while r < rows.len()
        invariant
            r <= rows@.len(),
            all == row_views(rows@),
            n == columns(all),
            w@.len() == n,
            forall|i: int|
                0 <= i < n ==> #[trigger] w@[i] == column_width(all.take(r as int), i),
        decreases rows@.len() - r,
    {
        assert(all.take(r + 1).drop_last() =~= all.take(r as int));
        assert(all.take(r + 1).last() == all[r as int]);
        if let Some(c) = &rows[r] {
            assert(all[r as int] == Some(views(c@)));
            proof {
                lemma_columns(all, all.len() as int, r as int);
                assert(all.take(all.len() as int) =~= all);
            }
            let ghost before = w@;
            let mut i: usize = 0;
            while i < c.len()
                invariant
                    i <= c@.len() <= n,
                    w@.len() == n,
                    before.len() == n,
                    forall|j: int|
                        0 <= j < i ==> #[trigger] w@[j] == (if text_cols(views(c@)[j])
                            > before[j] {
                            text_cols(views(c@)[j])
                        } else {
                            before[j]
                        }),
                    forall|j: int| i <= j < n ==> #[trigger] w@[j] == before[j],
                decreases c@.len() - i,
            {
                let cols = str_width(c[i].as_str());
                assert(views(c@)[i as int] == c@[i as int]@);
                if cols > w[i] {
                    w.set(i, cols);
                }
                i = i + 1;
            }
            assert forall|j: int| 0 <= j < n implies #[trigger] w@[j] == column_width(
                all.take(r + 1),
                j,
            ) by {
                assert(before[j] == column_width(all.take(r as int), j));
            }
        } else {
            assert(all[r as int] is None);
            assert forall|j: int| 0 <= j < n implies #[trigger] w@[j] == column_width(
                all.take(r + 1),
                j,
            ) by {
                assert(w@[j] == column_width(all.take(r as int), j));
            }
        }
        r = r + 1;
    }
    assert(all.take(r as int) =~= all);
    w
}

/// How wide spans are, where that is no more than `room`.
fn width_within(spans: &Vec<Span>, room: usize) -> (r: Option<usize>)
    ensures
        match r {
            Some(w) => w == spans_width(span_views(spans@)) && w <= room,
            None => spans_width(span_views(spans@)) > room,
        },
{
    let ghost all = span_views(spans@);
    let mut w: usize = 0;
    let mut i: usize = 0;
    assert(all.take(0) =~= Seq::empty());
    while i < spans.len()
        invariant
            i <= spans@.len(),
            all == span_views(spans@),
            w == spans_width(all.take(i as int)),
            w <= room,
        decreases spans@.len() - i,
    {
        assert(all.take(i + 1).drop_last() =~= all.take(i as int));
        assert(all.take(i + 1).last() == spans@[i as int]@);
        let cols = str_width(spans[i].content.as_str());
        if cols > room - w {
            proof {
                lemma_width_grows(all, i + 1);
            }
            return None;
        }
        w = w + cols;
        i = i + 1;
    }
    assert(all.take(i as int) =~= all);
    Some(w)
}

proof fn lemma_width_grows(spans: Seq<SpanView>, i: int)
    requires
        0 <= i <= spans.len(),
    ensures
        spans_width(spans.take(i)) <= spans_width(spans),
    decreases spans.len() - i,
{
    if i < spans.len() {
        assert(spans.take(i + 1).drop_last() =~= spans.take(i));
        lemma_width_grows(spans, i + 1);
    } else {
        assert(spans.take(i) =~= spans);
    }
}

fn cell_text(cells: &Vec<String>, i: usize) -> (r: String)
    ensures
        r@ == cell_at(views(cells@), i as int),
{
    if i < cells.len() {
        cells[i].clone()
    } else {
        String::new()
    }
}

/// Whether a table can be shown; see [`table_fits`].
fn fits(rows: &Vec<Option<Vec<String>>>) -> (r: bool)
    ensures
        r == table_fits(row_views(rows@)),
{
    let ghost all = row_views(rows@);
    let n = count_columns(rows);
    let w = column_widths(rows, n);
    let mut k: usize = 0;
    while k < n
        invariant
            k <= n,
            all == row_views(rows@),
            n == columns(all),
            w@.len() == n,
            forall|i: int| 0 <= i < n ==> #[trigger] w@[i] == column_width(all, i),
            forall|i: int| 0 <= i < k ==> #[trigger] column_width(all, i) + 2 <= usize::MAX,
        decreases n - k,
    {
        if w[k] > usize::MAX - 2 {
            assert(column_width(all, k as int) + 2 > usize::MAX);
            return false;
        }
        k = k + 1;
    }
    let mut r: usize = 0;
    while r < rows.len()
        invariant
            r <= rows@.len(),
            all == row_views(rows@),
            n == columns(all),
            w@.len() == n,
            forall|i: int| 0 <= i < n ==> #[trigger] w@[i] == column_width(all, i),
            forall|q: int, i: int|
                0 <= q < r && 0 <= i < n && all[q] is Some ==> spans_width(
                    inline(#[trigger] cell_at(all[q]->0, i)),
                ) <= column_width(all, i),
        decreases rows@.len() - r,
    {
        if let Some(c) = &rows[r] {
            assert(all[r as int] == Some(views(c@)));
            let mut i: usize = 0;
            while i < n
                invariant
                    i <= n,
                    r < rows@.len(),
                    all == row_views(rows@),
                    all[r as int] == Some(views(c@)),
                    n == columns(all),
                    w@.len() == n,
                    forall|j: int| 0 <= j < n ==> #[trigger] w@[j] == column_width(all, j),
                    forall|j: int|
                        0 <= j < i ==> spans_width(
                            inline(#[trigger] cell_at(all[r as int]->0, j)),
                        ) <= column_width(all, j),
                decreases n - i,
            {
                let cell = cell_text(c, i);
                let spans = inline_spans(cell.as_str());
                if width_within(&spans, w[i]).is_none() {
                    assert(spans_width(inline(cell_at(all[r as int]->0, i as int)))
                        > column_width(all, i as int));
                    return false;
                }
                i = i + 1;
            }
        }
        r = r + 1;
    }
    true
}

fn bold_spans(spans: Vec<Span>) -> (r: Vec<Span>)
    ensures
        span_views(r@) == in_bold(span_views(spans@)),
{
    let mut r: Vec<Span> = Vec::new();
    let mut i: usize = 0;
    while i < spans.len()
        invariant
            i <= spans@.len(),
            r@.len() == i,
            forall|k: int|
                0 <= k < i ==> (#[trigger] r@[k])@ == in_bold(span_views(spans@))[k],
        decreases spans@.len() - i,
    {
        let s = &spans[i];
        let style = Style { fg: s.style.fg, bg: s.style.bg, bold: true, italic: s.style.italic };
        r.push(Span { content: s.content.clone(), style });
        i = i + 1;
    }
    assert(span_views(r@) =~= in_bold(span_views(spans@)));
    r
}

fn render_row(
    rows: &Vec<Option<Vec<String>>>,
    r: usize,
    cells: &Vec<String>,
    w: &Vec<usize>,
    header: bool,
) -> (out: Vec<Span>)
    requires
        r < rows@.len(),
        row_views(rows@)[r as int] == Some(views(cells@)),
        table_fits(row_views(rows@)),
        w@.len() == columns(row_views(rows@)),
        forall|i: int| 0 <= i < w@.len() ==> #[trigger] w@[i] == column_width(row_views(rows@), i),
    ensures
        span_views(out@) == row_spans(
            row_views(rows@),
            views(cells@),
            header,
            columns(row_views(rows@)) as int,
        ),
{
    let ghost all = row_views(rows@);
    let ghost cs = views(cells@);
    let n: usize = w.len();
    let mut out: Vec<Span> = Vec::new();
    assert(span_views(out@) =~= Seq::empty());
    push_span(&mut out, Span::styled("│", Style::fg(C_ACCENT)));
    assert(span_views(out@) =~= seq![bar()]);
    let mut i: usize = 0;
    while i < n
        invariant
            i <= n,
            n == w@.len(),
            n == columns(all),
            r < rows@.len(),
            all == row_views(rows@),
            cs == views(cells@),
            all[r as int] == Some(cs),
            table_fits(all),
            forall|j: int| 0 <= j < w@.len() ==> #[trigger] w@[j] == column_width(all, j),
            span_views(out@) == row_spans(all, cs, header, i as int),
        decreases n - i,
    {
        let cell = cell_text(cells, i);
        let spans = inline_spans(cell.as_str());
        assert(spans_width(inline(cell_at(all[r as int]->0, i as int))) <= column_width(
            all,
            i as int,
        ));
        assert(column_width(all, i as int) + 2 <= usize::MAX);
        let dw = match width_within(&spans, w[i]) {
            Some(x) => x,
            None => 0,
        };
        let pad = repeated(" ", w[i] - dw + 1);
        let ghost before = span_views(out@);
        push_span(&mut out, Span::raw(" "));
        let ghost shown = cell_spans(cell@, header);
        if header {
            push_spans(&mut out, bold_spans(spans));
        } else {
            push_spans(&mut out, spans);
        }
        push_span(&mut out, Span::raw(pad.as_str()));
        push_span(&mut out, Span::styled("│", Style::fg(C_ACCENT)));
        assert(span_views(out@) =~= before + seq![raw_span(" "@)] + shown + seq![
            raw_span(pad@),
            bar(),
        ]);
        i = i + 1;
    }
    out
}

fn render_rule(w: &Vec<usize>) -> (r: String)
    requires
        forall|i: int| 0 <= i < w@.len() ==> #[trigger] w@[i] + 2 <= usize::MAX,
    ensures
        r@ == "├"@ + join(Seq::new(w@.len(), |i: int| repeat("─"@, (w@[i] + 2) as nat)), "┼"@)
            + "┤"@,
{
    let mut parts: Vec<String> = Vec::new();
    let mut i: usize = 0;
    while i < w.len()
        invariant
            i <= w@.len(),
            forall|k: int| 0 <= k < w@.len() ==> #[trigger] w@[k] + 2 <= usize::MAX,
            parts@.len() == i,
            forall|k: int| 0 <= k < i ==> (#[trigger] parts@[k])@ == repeat("─"@, (w@[k] + 2) as nat),
        decreases w@.len() - i,
    {
        assert(w@[i as int] + 2 <= usize::MAX);
        parts.push(repeated("─", w[i] + 2));
        i = i + 1;
    }
    assert(views(parts@) =~= Seq::new(w@.len(), |i: int| repeat("─"@, (w@[i] + 2) as nat)));
    let line = join_texts(&parts, "┼");
    cat3("├", line.as_str(), "┤")
}

fn render_table(rows: &Vec<Option<Vec<String>>>) -> (out: Vec<Line>)
    requires
        table_fits(row_views(rows@)),
    ensures
        line_views(out@) == table_lines(row_views(rows@)),
{
    let ghost all = row_views(rows@);
    let n = count_columns(rows);
    let mut out: Vec<Line> = Vec::new();
    if n == 0 {
        assert(line_views(out@) =~= Seq::empty());
        return out;
    }
    let w = column_widths(rows, n);
    let head = rows.len() > 1 && rows[1].is_none();
    assert(head == has_head(all)) by {
        if rows@.len() > 1 {
            assert(all[1] is None == rows@[1] is None);
        }
    }
    let mut r: usize = 0;
    while r < rows.len()
        invariant
            r <= rows@.len(),
            all == row_views(rows@),
            table_fits(all),
            head == has_head(all),
            w@.len() == columns(all),
            forall|i: int| 0 <= i < w@.len() ==> #[trigger] w@[i] == column_width(all, i),
            out@.len() == r,
            forall|k: int| 0 <= k < r ==> (#[trigger] out@[k])@ == table_line(all, k),
        decreases rows@.len() - r,
    {
        match &rows[r] {
            None => {
                assert(all[r as int] is None);
                assert forall|i: int| 0 <= i < w@.len() implies #[trigger] w@[i] + 2
                    <= usize::MAX by {
                    assert(column_width(all, i) + 2 <= usize::MAX);
                }
                let text = render_rule(&w);
                assert(Seq::new(w@.len(), |i: int| repeat("─"@, (w@[i] + 2) as nat)) =~= Seq::new(
                    columns(all),
                    |i: int| repeat("─"@, column_width(all, i) + 2),
                ));
                out.push(Line::of(Span::styled(text.as_str(), Style::fg(C_BORDER))));
            },
            Some(cells) => {
                assert(all[r as int] == Some(views(cells@)));
                let spans = render_row(rows, r, cells, &w, r == 0 && head);
                out.push(Line { spans });
            },
        }
        r = r + 1;
    }
    assert(line_views(out@) =~= table_lines(all));
    out
}

// ---- across lines ----

/// What one line hands on to the next: whether a fence is open, and the rows that are kept back.
#[derive(Debug)]
pub struct MarkdownState {
    pub fence: bool,
    /// The rows of a table that are kept back; nothing for the one between the head and the rest.
    pub table: Vec<Option<Vec<String>>>,
}

/// What a state holds.
#[verifier::ext_equal]
pub struct MdView {
    pub fence: bool,
    pub table: Seq<Option<Seq<Seq<char>>>>,
}

/// Whether a line is one that ends a table: neither a fence, nor inside one, nor a row.
pub open spec fn ends_table(md: MdView, line: Seq<char>) -> bool {
    !is_fence(line) && !md.fence && !is_table_row(trim_start(line))
}

/// Whether a line can be shown: where it ends a table, the table can.
pub open spec fn can_render(md: MdView, line: Seq<char>) -> bool {
    ends_table(md, line) ==> table_fits(md.table)
}

/// A line: what is shown for it, and the state behind it. A fence and a row of a table show
/// nothing; the line that ends a table shows the table first.
pub open spec fn rendered(md: MdView, line: Seq<char>) -> (Seq<Seq<SpanView>>, MdView) {
    let t = trim_start(line);
    if is_fence(line) {
        (Seq::empty(), MdView { fence: !md.fence, ..md })
    } else if md.fence {
        (seq![seq![styled_span(line, fg_bg_style(C_DIM, C_CODE_BG))]], md)
    } else if is_table_row(t) {
        (Seq::empty(), MdView { table: md.table.push(row_of(t)), ..md })
    } else {
        (
            table_lines(md.table).push(plain_spans(t)),
            MdView { table: Seq::empty(), ..md },
        )
    }
}

/// No fence, no table.
pub open spec fn at_start() -> MdView {
    MdView { fence: false, table: Seq::empty() }
}

impl MarkdownState {
    /// What the state holds.
    pub open spec fn at(&self) -> MdView {
        MdView { fence: self.fence, table: row_views(self.table@) }
    }

    pub fn new() -> (r: MarkdownState)
        ensures
            r.at() == at_start(),
    {
        let r = MarkdownState { fence: false, table: Vec::new() };
        assert(r.at().table =~= Seq::empty());
        r
    }

    /// A turn begins: nothing is handed on from the one before.
    pub fn reset(&mut self)
        ensures
            final(self).at() == at_start(),
    {
        self.fence = false;
        self.table = Vec::new();
        assert(self.at().table =~= Seq::empty());
    }

    /// A copy.
    pub fn copy(&self) -> (r: MarkdownState)
        ensures
            r.at() == self.at(),
    {
        let mut table: Vec<Option<Vec<String>>> = Vec::new();
        let mut i: usize = 0;
        while i < self.table.len()
            invariant
                i <= self.table@.len(),
                table@.len() == i,
                forall|k: int|
                    0 <= k < i ==> #[trigger] row_views(table@)[k] == row_views(self.table@)[k],
            decreases self.table@.len() - i,
        {
            let ghost before = table@;
            let one = match &self.table[i] {
                Some(c) => Some(clone_texts(c)),
                None => None,
            };
            table.push(one);
            assert forall|k: int| 0 <= k < i + 1 implies #[trigger] row_views(table@)[k]
                == row_views(self.table@)[k] by {
                if k < i {
                    assert(row_views(before)[k] == row_views(self.table@)[k]);
                    assert(table@[k] == before[k]);
                }
            }
            i = i + 1;
        }
        assert(row_views(table@) =~= row_views(self.table@));
        MarkdownState { fence: self.fence, table }
    }

    /// Whether a line can be shown; see [`can_render`].
    pub fn renders(&self, line: &str) -> (r: bool)
        ensures
            r == can_render(self.at(), line@),
    {
        let t = trimmed_start(line);
        if begins_with(t.as_str(), "```") || self.fence || is_row(t.as_str()) {
            return true;
        }
        fits(&self.table)
    }

    /// Whether the rows that are kept back can be shown.
    pub fn table_fits(&self) -> (r: bool)
        ensures
            r == table_fits(self.at().table),
    {
        fits(&self.table)
    }

    /// Takes a line; gives what is shown for it. See [`rendered`].
    pub fn render_line(&mut self, line: &str) -> (r: Vec<Line>)
        requires
            can_render(old(self).at(), line@),
        ensures
            (line_views(r@), final(self).at()) == rendered(old(self).at(), line@),
    {
        let t = trimmed_start(line);
        let mut out: Vec<Line> = Vec::new();
        assert(line_views(out@) =~= Seq::empty());
        if begins_with(t.as_str(), "```") {
            self.fence = !self.fence;
            return out;
        }
        if self.fence {
            push_line(&mut out, Line::of(Span::styled(line, Style::fg_bg(C_DIM, C_CODE_BG))));
            assert(line_views(out@) =~= rendered(old(self).at(), line@).0);
            return out;
        }
        if is_row(t.as_str()) {
            let row = parse_table_row(t.as_str());
            self.table.push(row);
            assert(row_views(self.table@) =~= row_views(old(self).table@).push(row_of(t@)));
            return out;
        }
        let mut out = self.take_table();
        push_line(&mut out, Line { spans: plain_line_spans(t.as_str()) });
        out
    }

    /// [`MarkdownState::render_line`] where the line can be shown; nothing, and no change, where it
    /// cannot.
    pub fn try_render_line(&mut self, line: &str) -> (r: Option<Vec<Line>>)
        ensures
            match r {
                Some(out) => can_render(old(self).at(), line@) && (
                    line_views(out@),
                    final(self).at(),
                ) == rendered(old(self).at(), line@),
                None => !can_render(old(self).at(), line@) && final(self).at() == old(self).at(),
            },
    {
        if self.renders(line) {
            Some(self.render_line(line))
        } else {
            None
        }
    }

    /// Takes the rows that are kept back; gives the table.
    pub fn take_table(&mut self) -> (r: Vec<Line>)
        requires
            table_fits(old(self).at().table),
        ensures
            line_views(r@) == table_lines(old(self).at().table),
            final(self).at() == (MdView { table: Seq::empty(), ..old(self).at() }),
    {
        let out = render_table(&self.table);
        self.table = Vec::new();
        assert(self.at().table =~= Seq::empty());
        out
    }

    /// Whether rows are kept back.
    pub fn table_is_buffering(&self) -> (r: bool)
        ensures
            r == (self.at().table.len() > 0),
    {
        self.table.len() > 0
    }
}

impl Default for MarkdownState {
    fn default() -> (r: Self)
        ensures
            r.at() == at_start(),
    {
        MarkdownState::new()
    }
}

// ---- laws ----

proof fn lemma_spans_text(s: Seq<char>, i: int, m: Marks, buf: Seq<char>)
    requires
        0 <= i,
    ensures
        text_of(spans_from(s, i, m, buf)) == buf + unmarked_text(s, i, m),
    decreases s.len() - i,
{
    if i >= s.len() {
        lemma_run_text(buf, m);
        assert(buf + Seq::<char>::empty() =~= buf);
    } else {
        match piece_at(s, i, m) {
            Piece::Text => {
                lemma_spans_text(s, i + 1, m, buf.push(s[i]));
                assert(buf.push(s[i]) + unmarked_text(s, i + 1, m) =~= buf + (seq![s[i]]
                    + unmarked_text(s, i + 1, m)));
            },
            Piece::Mark(n) => {
                lemma_spans_text(s, i + 1, n, Seq::empty());
                lemma_text_add(run(buf, m), spans_from(s, i + 1, n, Seq::empty()));
                lemma_run_text(buf, m);
                assert(Seq::<char>::empty() + unmarked_text(s, i + 1, n) =~= unmarked_text(
                    s,
                    i + 1,
                    n,
                ));
            },
            Piece::Double(n) => {
                lemma_spans_text(s, i + 2, n, Seq::empty());
                lemma_text_add(run(buf, m), spans_from(s, i + 2, n, Seq::empty()));
                lemma_run_text(buf, m);
                assert(Seq::<char>::empty() + unmarked_text(s, i + 2, n) =~= unmarked_text(
                    s,
                    i + 2,
                    n,
                ));
            },
        }
    }
}

proof fn lemma_run_text(buf: Seq<char>, m: Marks)
    ensures
        text_of(run(buf, m)) == buf,
{
    if buf.len() > 0 {
        let one = run(buf, m);
        reveal_with_fuel(text_of, 2);
        assert(one.drop_last() =~= Seq::empty());
        assert(Seq::<char>::empty() + buf =~= buf);
    } else {
        assert(buf =~= Seq::empty());
    }
}

/// Text in bold is the same text.
proof fn lemma_bold_text(spans: Seq<SpanView>)
    ensures
        text_of(in_bold(spans)) == text_of(spans),
    decreases spans.len(),
{
    if spans.len() > 0 {
        lemma_bold_text(spans.drop_last());
        assert(in_bold(spans).drop_last() =~= in_bold(spans.drop_last()));
    }
}

/// Nothing of a line is lost but its marks: its spans hold, in order, the text without the marks. In
/// a heading marks are styles as in any other line, and all of it is bold.
pub proof fn law_only_marks_are_dropped(s: Seq<char>)
    ensures
        text_of(inline(s)) == unmarked_text(s, 0, no_marks()),
        heading(s).len() > 0 ==> {
            &&& text_of(plain_spans(s)) == unmarked_text(heading(s), 0, no_marks())
            &&& forall|i: int| 0 <= i < plain_spans(s).len() ==> (#[trigger] plain_spans(s)[i]).style.bold
        },
{
    lemma_inline_text(s);
    lemma_inline_text(heading(s));
    lemma_bold_text(inline(heading(s)));
}

proof fn lemma_inline_text(s: Seq<char>)
    ensures
        text_of(inline(s)) == unmarked_text(s, 0, no_marks()),
{
    lemma_spans_text(s, 0, no_marks(), Seq::empty());
    assert(Seq::<char>::empty() + unmarked_text(s, 0, no_marks()) =~= unmarked_text(
        s,
        0,
        no_marks(),
    ));
}

/// Every row of a table is shown, and in the order in which they came.
pub proof fn law_table_keeps_its_rows(rows: Seq<Option<Seq<Seq<char>>>>)
    requires
        columns(rows) > 0,
    ensures
        table_lines(rows).len() == rows.len(),
        forall|r: int| 0 <= r < rows.len() ==> table_lines(rows)[r] == table_line(rows, r),
{
}

/// Cells line up: what is shown of a cell and the blanks behind it are as wide in every row as the
/// widest cell of the column, and one blank.
pub proof fn law_cells_line_up(rows: Seq<Option<Seq<Seq<char>>>>, r: int, i: int)
    requires
        table_fits(rows),
        0 <= r < rows.len(),
        rows[r] is Some,
        0 <= i < columns(rows),
    ensures
        spans_width(inline(cell_at(rows[r]->0, i))) + padding(rows, rows[r]->0, i) == column_width(
            rows,
            i,
        ) + 1,
{
    assert(spans_width(inline(cell_at(rows[r]->0, i))) <= column_width(rows, i));
}

/// The state behind lines.
pub open spec fn after_lines(md: MdView, ls: Seq<Seq<char>>) -> MdView
    decreases ls.len(),
{
    if ls.len() == 0 {
        md
    } else {
        rendered(after_lines(md, ls.drop_last()), ls.last()).1
    }
}

/// The rows of a table are kept back, all of them and in order: each shows nothing, and they are there
/// until the table is taken or the state is reset. Behind that nothing is kept back.
pub proof fn law_rows_are_kept_back(ls: Seq<Seq<char>>)
    requires
        forall|i: int| 0 <= i < ls.len() ==> is_table_row(trim_start(#[trigger] ls[i])),
    ensures
        ({
            let md = after_lines(at_start(), ls);
            &&& !md.fence
            &&& md.table.len() == ls.len()
            &&& forall|i: int| 0 <= i < ls.len() ==> #[trigger] md.table[i] == row_of(trim_start(ls[i]))
        }),
        forall|k: int|
            0 <= k < ls.len() ==> rendered(after_lines(at_start(), ls.take(k)), #[trigger] ls[k]).0.len()
                == 0,
        at_start().table.len() == 0,
        table_lines(Seq::empty()).len() == 0,
    decreases ls.len(),
{
    reveal_strlit("```");
    if ls.len() > 0 {
        let front = ls.drop_last();
        assert forall|i: int| 0 <= i < front.len() implies is_table_row(
            trim_start(#[trigger] front[i]),
        ) by {
            assert(front[i] == ls[i]);
        }
        law_rows_are_kept_back(front);
        let t = trim_start(ls.last());
        assert(is_table_row(trim_start(ls[ls.len() - 1])));
        if is_fence(ls.last()) {
            assert(t.subrange(0, 3)[0] == '`');
        }
        let md = after_lines(at_start(), ls);
        assert forall|i: int| 0 <= i < ls.len() implies #[trigger] md.table[i] == row_of(
            trim_start(ls[i]),
        ) by {
            if i < front.len() {
                assert(front[i] == ls[i]);
                assert(after_lines(at_start(), front).table[i] == row_of(trim_start(front[i])));
            }
        }
        assert forall|k: int| 0 <= k < ls.len() implies rendered(
            after_lines(at_start(), ls.take(k)),
            #[trigger] ls[k],
        ).0.len() == 0 by {
            if k < front.len() {
                assert(front[k] == ls[k]);
                assert(front.take(k) =~= ls.take(k));
            } else {
                assert(ls.take(k) =~= front);
            }
        }
    }
}


proof fn lemma_run(s: Seq<char>, i: int, j: int, m: Marks, buf: Seq<char>)
    requires
        0 <= i <= j <= s.len(),
        forall|k: int| i <= k < j ==> #[trigger] s[k] != '`',
        m.code || (forall|k: int| i <= k < j ==> #[trigger] s[k] != '*'),
    ensures
        spans_from(s, i, m, buf) == spans_from(s, j, m, buf + s.subrange(i, j)),
    decreases j - i,
{
    if i < j {
        assert(s[i] != '`');
        lemma_run(s, i + 1, j, m, buf.push(s[i]));
        assert(buf.push(s[i]) + s.subrange(i + 1, j) =~= buf + s.subrange(i, j));
    } else {
        assert(buf + s.subrange(i, j) =~= buf);
    }
}

proof fn lemma_around(
    a: Seq<char>,
    x: Seq<char>,
    b: Seq<char>,
    c: Seq<char>,
    m: Marks,
)
    requires
        a.len() > 0 && markless(a),
        c.len() > 0 && markless(c),
        b.len() > 0,
        ({
            ||| x == seq!['`'] && m == Marks { code: true, ..no_marks() } && !b.contains('`')
            ||| x == seq!['*', '*'] && m == Marks { bold: true, ..no_marks() } && markless(b)
            ||| x == seq!['*'] && m == Marks { italic: true, ..no_marks() } && markless(b)
                && !crate::text::is_white(b[0])
        }),
    ensures
        inline(a + x + b + x + c) == seq![
            styled_span(a, mark_style(no_marks())),
            styled_span(b, mark_style(m)),
            styled_span(c, mark_style(no_marks())),
        ],
{
    let s = a + x + b + x + c;
    let none = no_marks();
    let n = a.len() as int;
    let p = n + x.len();
    let q = p + b.len();
    let r = q + x.len();
    let end = s.len() as int;
    let nil = Seq::<char>::empty();
    assert forall|k: int| 0 <= k < n implies #[trigger] s[k] != '`' && s[k] != '*' by {
        assert(s[k] == a[k]);
    }
    assert forall|k: int| r <= k < s.len() implies #[trigger] s[k] != '`' && s[k] != '*' by {
        assert(s[k] == c[k - r]);
    }
    assert forall|k: int| p <= k < q implies #[trigger] s[k] != '`' && (m.code || s[k] != '*') by {
        assert(s[k] == b[k - p]);
        assert(b.contains(b[k - p]));
    }
    lemma_run(s, 0, n, none, nil);
    lemma_run(s, p, q, m, nil);
    lemma_run(s, r, end, none, nil);
    assert(s[n] == x[0]);
    assert(s[q] == x[0]);
    if x.len() == 2 {
        assert(s[n + 1] == x[1]);
        assert(s[q + 1] == x[1]);
    } else if x[0] == '*' {
        assert(s[n + 1] == b[0]);
        assert(b[0] != '*');
    }
    assert(nil + s.subrange(0, n) =~= a);
    assert(nil + s.subrange(p, q) =~= b);
    assert(nil + s.subrange(r, end) =~= c);
    assert(spans_from(s, n, none, a) == run(a, none) + spans_from(s, p, m, nil));
    assert(spans_from(s, q, m, b) == run(b, m) + spans_from(s, r, none, nil));
    assert(spans_from(s, end, none, c) == run(c, none));
    assert(inline(s) =~= seq![
        styled_span(a, mark_style(none)),
        styled_span(b, mark_style(m)),
        styled_span(c, mark_style(none)),
    ]);
}

/// Text between marks has its style, what stands around it has none, and the marks are gone: between
/// two stars on either side it is bold, between one italic, and between backquotes it has the
/// colours of code.
pub proof fn law_marked_text_is_styled(a: Seq<char>, b: Seq<char>, c: Seq<char>)
    requires
        a.len() > 0 && markless(a),
        b.len() > 0 && markless(b),
        c.len() > 0 && markless(c),
    ensures
        ({
            let plain = Style { fg: None, bg: None, bold: false, italic: false };
            let left = SpanView { content: a, style: plain };
            let right = SpanView { content: c, style: plain };
            &&& inline(a + seq!['*', '*'] + b + seq!['*', '*'] + c) == seq![
                left,
                SpanView { content: b, style: Style { bold: true, ..plain } },
                right,
            ]
            &&& !crate::text::is_white(b[0]) ==> inline(a + seq!['*'] + b + seq!['*'] + c) == seq![
                left,
                SpanView { content: b, style: Style { italic: true, ..plain } },
                right,
            ]
            &&& inline(a + seq!['`'] + b + seq!['`'] + c) == seq![
                left,
                SpanView {
                    content: b,
                    style: Style { fg: Some(C_CODE), bg: Some(C_CODE_BG), ..plain },
                },
                right,
            ]
            &&& inline(a) == seq![left]
        }),
{
    let none = no_marks();
    lemma_around(a, seq!['*', '*'], b, c, Marks { bold: true, ..none });
    if !crate::text::is_white(b[0]) {
        lemma_around(a, seq!['*'], b, c, Marks { italic: true, ..none });
    }
    assert(!b.contains('`'));
    lemma_around(a, seq!['`'], b, c, Marks { code: true, ..none });
    let nil = Seq::<char>::empty();
    lemma_run(a, 0, a.len() as int, none, nil);
    assert(nil + a.subrange(0, a.len() as int) =~= a);
}

proof fn lemma_joined_cells(cells: Seq<Seq<char>>)
    requires
        cells.len() > 0,
        forall|i: int| 0 <= i < cells.len() ==> !(#[trigger] cells[i]).contains('|'),
    ensures
        split(join(cells, seq!['|']), '|') == cells,
        join(cells, seq!['|']).len() >= cells.last().len(),
        cells.last().len() > 0 ==> join(cells, seq!['|']).last() == cells.last().last(),
        cells[0].len() > 0 ==> join(cells, seq!['|']).len() > 0 && join(cells, seq!['|'])[0]
            == cells[0][0],
    decreases cells.len(),
{
    if cells.len() == 1 {
        assert(!cells[0].contains('|'));
        lemma_split_whole(cells[0], '|');
        assert(seq![cells[0]] =~= cells);
    } else {
        let before = cells.drop_last();
        assert forall|i: int| 0 <= i < before.len() implies !(#[trigger] before[i]).contains('|') by {
            assert(!cells[i].contains('|'));
        }
        lemma_joined_cells(before);
        let j = join(before, seq!['|']);
        let last = cells.last();
        assert(!cells[cells.len() - 1].contains('|'));
        lemma_split_whole(last, '|');
        lemma_split_push(j, '|', '|');
        assert(j.push('|') =~= j + seq!['|']);
        lemma_split_add(j + seq!['|'], last, '|');
        let s = split(j + seq!['|'], '|');
        assert(s == before.push(Seq::empty()));
        assert(s.drop_last() =~= before);
        assert(Seq::<char>::empty() + last =~= last);
        assert(split(last, '|').drop_first() =~= Seq::empty());
        assert(before + seq![last] + Seq::empty() =~= cells);
    }
}

/// A row of a table is read into its cells, without the white space around each, whatever their
/// number.
pub proof fn law_rows_are_read_into_cells(cells: Seq<Seq<char>>)
    requires
        cells.len() > 0,
        cells[0].len() > 0,
        cells.last().len() > 0,
        forall|i: int| 0 <= i < cells.len() ==> !(#[trigger] cells[i]).contains('|'),
    ensures
        ({
            let line = seq!['|'] + join(cells, seq!['|']) + seq!['|'];
            &&& is_table_row(line)
            &&& cells_of(line).len() == cells.len()
            &&& forall|i: int| 0 <= i < cells.len() ==> #[trigger] cells_of(line)[i] == trim(cells[i])
        }),
{
    lemma_joined_cells(cells);
    let j = join(cells, seq!['|']);
    let line = seq!['|'] + j + seq!['|'];
    assert(line[0] == '|');
    assert(line.last() == '|');
    let t = line.skip(1);
    assert(!cells[0].contains('|') && cells[0].contains(cells[0][0]));
    assert(!cells[cells.len() - 1].contains('|') && cells.last().contains(cells.last().last()));
    assert(t[0] == j[0]);
    reveal_with_fuel(without_bars_before, 2);
    reveal_with_fuel(without_bars_behind, 2);
    assert(without_bars_before(line) == t);
    assert(t.last() == '|');
    assert(t.drop_last() =~= j);
    assert(without_bars_behind(t) == j);
}

/// What a line becomes: three backquotes begin and end code and show nothing; in code a line is shown
/// as it is; a row of a table is kept until the table ends; and any other line ends the table before
/// it and is shown behind it.
pub proof fn law_lines_are_rendered_by_their_kind(md: MdView, line: Seq<char>)
    ensures
        ({
            let (out, after) = rendered(md, line);
            let t = trim_start(line);
            let fence = t.len() >= 3 && t[0] == '`' && t[1] == '`' && t[2] == '`';
            let row = t.len() >= 2 && t[0] == '|' && t[t.len() - 1] == '|';
            &&& fence ==> out.len() == 0 && after.fence == !md.fence && after.table == md.table
            &&& !fence ==> after.fence == md.fence
            &&& !fence && md.fence ==> out.len() == 1 && out[0].len() == 1 && out[0][0].content == line
                && after.table == md.table
            &&& !fence && !md.fence && row ==> out.len() == 0 && after.table.len() == md.table.len() + 1
                && after.table.drop_last() == md.table
            &&& !fence && !md.fence && !row ==> after.table.len() == 0 && out.len() == table_lines(
                md.table,
            ).len() + 1 && out.drop_last() == table_lines(md.table) && out.last() == plain_spans(t)
        }),
{
    reveal_strlit("```");
    let (out, after) = rendered(md, line);
    let t = trim_start(line);
    let fence = t.len() >= 3 && t[0] == '`' && t[1] == '`' && t[2] == '`';
    if fence {
        assert("```"@ =~= t.take(3));
    }
    if "```"@.is_prefix_of(t) {
        assert(t[0] == "```"@[0] && t[1] == "```"@[1] && t[2] == "```"@[2]);
    }
    assert(is_fence(line) == fence);
    if !fence && !md.fence {
        if is_table_row(t) {
            assert(after.table.drop_last() =~= md.table);
        } else {
            assert(out.drop_last() =~= table_lines(md.table));
        }
    }
}

} // verus!
