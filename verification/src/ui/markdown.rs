//! Markdown for a terminal, as it streams in: a line is rendered when it is complete.
use vstd::prelude::*;
use vstd::string::*;
use crate::text::{
    begins_with, cat2, cat5, count_char, lemma_count_add, lemma_count_none, lemma_split_add,
    lemma_split_count, lemma_split_nonempty, lemma_split_pieces, lemma_split_push, lemma_split_whole,
    lemma_trim_start_shape, split, split_char, sub_text, to_chars, trim_start, trimmed_start, views,
};
use crate::ui::inline::{find_piece, marks_after, no_marks, piece_at, unmarked, Marks, Piece};
use crate::ui::theme::{bold, dim, styled, ACCENT, BOLD, CODE, DIM, ITALIC, RESET};

verus! {

// ---- inside a line ----

/// The style that a mark turns on, or the end of all styles where it turns one off.
pub open spec fn mark_style(before: Marks, after: Marks) -> Seq<char> {
    if after.code && !before.code {
        CODE@
    } else if after.bold && !before.bold {
        BOLD@
    } else if after.italic && !before.italic {
        ITALIC@
    } else {
        RESET@
    }
}

/// A line from `i` on, with its marks made styles. A style that is open at the end of the line ends
/// there.
pub open spec fn inline_from(s: Seq<char>, i: int, m: Marks) -> Seq<char>
    decreases s.len() - i,
{
    if i >= s.len() {
        if m == no_marks() {
            Seq::empty()
        } else {
            RESET@
        }
    } else {
        match piece_at(s, i, m) {
            Piece::Text => seq![s[i]] + inline_from(s, i + 1, m),
            Piece::Mark(n) => mark_style(m, n) + inline_from(s, i + 1, n),
            Piece::Double(n) => mark_style(m, n) + inline_from(s, i + 2, n),
        }
    }
}

/// A line with its marks made styles.
pub open spec fn inline(s: Seq<char>) -> Seq<char> {
    inline_from(s, 0, no_marks())
}

fn push_style(out: &mut String, before: Marks, after: Marks)
    ensures
        final(out)@ == old(out)@ + mark_style(before, after),
{
    if after.code && !before.code {
        out.push_str(CODE);
    } else if after.bold && !before.bold {
        out.push_str(BOLD);
    } else if after.italic && !before.italic {
        out.push_str(ITALIC);
    } else {
        out.push_str(RESET);
    }
}

proof fn lemma_in_turn(a: Seq<char>, b: Seq<char>, c: Seq<char>)
    ensures
        (a + b) + c == a + (b + c),
{
    assert((a + b) + c =~= a + (b + c));
}

/// Makes the marks of a line styles; see [`inline`].
pub fn replace_inline(line: &str) -> (r: String)
    ensures
        r@ == inline(line@),
{
    let v = to_chars(line);
    let n: usize = v.len();
    let mut out = String::new();
    let mut m = unmarked();
    let mut i: usize = 0;
    while i < n
        invariant
            i <= n,
            n == v@.len(),
            v@ == line@,
            out@ + inline_from(line@, i as int, m) == inline(line@),
        decreases n - i,
    {
        let ghost before = out@;
        let ghost was = m;
        match find_piece(v.as_slice(), i, m) {
            Piece::Text => {
                out.push(v[i]);
                i = i + 1;
                assert(out@ =~= before + seq![line@[i - 1]]);
                proof {
                    lemma_in_turn(before, seq![line@[i - 1]], inline_from(line@, i as int, m));
                }
            },
            Piece::Mark(next) => {
                push_style(&mut out, m, next);
                m = next;
                i = i + 1;
                proof {
                    lemma_in_turn(before, mark_style(was, m), inline_from(line@, i as int, m));
                }
            },
            Piece::Double(next) => {
                push_style(&mut out, m, next);
                m = next;
                i = i + 2;
                proof {
                    lemma_in_turn(before, mark_style(was, m), inline_from(line@, i as int, m));
                }
            },
        }
    }
    if m.code || m.bold || m.italic {
        out.push_str(RESET);
    } else {
        assert(out@ + Seq::<char>::empty() =~= out@);
    }
    out
}

// ---- a line ----

/// `s` without the number signs it begins with.
pub open spec fn without_hashes(s: Seq<char>) -> Seq<char>
    decreases s.len(),
{
    if s.len() > 0 && s[0] == '#' {
        without_hashes(s.skip(1))
    } else {
        s
    }
}

/// The text of a heading; nothing where a line is none.
pub open spec fn heading(t: Seq<char>) -> Seq<char> {
    if t.len() > 0 && t[0] == '#' {
        trim_start(without_hashes(t))
    } else {
        Seq::empty()
    }
}

/// Whether a line is an item of a list.
pub open spec fn is_item(t: Seq<char>) -> bool {
    "- "@.is_prefix_of(t) || "* "@.is_prefix_of(t)
}

/// A line outside a fence: a heading is bold, an item has a dot, and inside each, as in any other
/// line, marks are styles.
pub open spec fn plain_line(t: Seq<char>) -> Seq<char> {
    if heading(t).len() > 0 {
        styled(BOLD@, inline(heading(t)))
    } else if is_item(t) {
        ACCENT@ + "•"@ + RESET@ + " "@ + inline(t.skip(2))
    } else {
        inline(t)
    }
}

/// Whether a line opens or closes a fence.
pub open spec fn is_fence(line: Seq<char>) -> bool {
    "```"@.is_prefix_of(trim_start(line))
}

/// A line, inside a fence or not. The fence itself is not shown; inside it nothing is a mark.
pub open spec fn shown_line(fence: bool, line: Seq<char>) -> Seq<char> {
    if is_fence(line) {
        Seq::empty()
    } else if fence {
        styled(DIM@, line)
    } else {
        plain_line(trim_start(line))
    }
}

/// Whether a fence is open after a line.
pub open spec fn fence_after(fence: bool, line: Seq<char>) -> bool {
    fence != is_fence(line)
}

/// The text of a heading; nothing where a line is none.
pub fn heading_text(t: &str) -> (r: String)
    ensures
        r@ == heading(t@),
{
    let v = to_chars(t);
    let n: usize = v.len();
    if n == 0 || v[0] != '#' {
        return String::new();
    }
    let mut i: usize = 0;
    assert(v@.skip(0) =~= v@);
    while i < n && v[i] == '#'
        invariant
            i <= n,
            n == v@.len(),
            without_hashes(v@) == without_hashes(v@.skip(i as int)),
        decreases n - i,
    {
        assert(v@.skip(i as int).skip(1) =~= v@.skip(i + 1));
        i = i + 1;
    }
    let rest = sub_text(v.as_slice(), i, n);
    assert(rest@ =~= v@.skip(i as int));
    trimmed_start(rest.as_str())
}

/// What an item of a list says; nothing where a line is none.
pub fn item_text(t: &str) -> (r: Option<String>)
    ensures
        match r {
            Some(s) => is_item(t@) && s@ == t@.skip(2),
            None => !is_item(t@),
        },
{
    if begins_with(t, "- ") || begins_with(t, "* ") {
        proof {
            reveal_strlit("- ");
            reveal_strlit("* ");
        }
        let v = to_chars(t);
        let r = sub_text(v.as_slice(), 2, v.len());
        assert(r@ =~= t@.skip(2));
        Some(r)
    } else {
        None
    }
}

fn render_plain(t: &str) -> (r: String)
    ensures
        r@ == plain_line(t@),
{
    let head = heading_text(t);
    if !head.as_str().is_empty() {
        return bold(replace_inline(head.as_str()).as_str());
    }
    match item_text(t) {
        Some(rest) => {
            let text = replace_inline(rest.as_str());
            cat5(ACCENT, "•", RESET, " ", text.as_str())
        },
        None => replace_inline(t),
    }
}

// ---- a stream ----

/// Text that streams in: the line that is not complete yet, and whether a fence is open.
#[derive(Debug)]
pub struct MarkdownStream {
    buf: String,
    in_fence: bool,
}

/// What a stream holds.
#[verifier::ext_equal]
pub struct StreamView {
    pub buf: Seq<char>,
    pub in_fence: bool,
}

/// Whether a fence is open after lines.
pub open spec fn fence_after_all(fence: bool, lines: Seq<Seq<char>>) -> bool
    decreases lines.len(),
{
    if lines.len() == 0 {
        fence
    } else {
        fence_after(fence_after_all(fence, lines.drop_last()), lines.last())
    }
}

/// Complete lines, each with its newline.
pub open spec fn shown_lines(fence: bool, lines: Seq<Seq<char>>) -> Seq<char>
    decreases lines.len(),
{
    if lines.len() == 0 {
        Seq::empty()
    } else {
        shown_lines(fence, lines.drop_last()) + (shown_line(
            fence_after_all(fence, lines.drop_last()),
            lines.last(),
        ) + "\n"@)
    }
}

/// More text arrives: what is shown, and what the stream holds then.
pub open spec fn fed(v: StreamView, chunk: Seq<char>) -> (Seq<char>, StreamView) {
    let parts = split(v.buf + chunk, '\n');
    (
        shown_lines(v.in_fence, parts.drop_last()),
        StreamView {
            buf: parts.last(),
            in_fence: fence_after_all(v.in_fence, parts.drop_last()),
        },
    )
}

/// The text ends: what is shown of the line that was not complete, and what the stream holds then.
pub open spec fn flushed(v: StreamView) -> (Seq<char>, StreamView) {
    if v.buf.len() == 0 {
        (Seq::empty(), v)
    } else {
        (
            shown_line(v.in_fence, v.buf),
            StreamView { buf: Seq::empty(), in_fence: fence_after(v.in_fence, v.buf) },
        )
    }
}

/// A stream at its start.
pub open spec fn fresh() -> StreamView {
    StreamView { buf: Seq::empty(), in_fence: false }
}

/// A whole text.
pub open spec fn rendered(text: Seq<char>) -> Seq<char> {
    fed(fresh(), text).0 + flushed(fed(fresh(), text).1).0
}

impl MarkdownStream {
    pub closed spec fn at(&self) -> StreamView {
        StreamView { buf: self.buf@, in_fence: self.in_fence }
    }

    pub fn new() -> (r: MarkdownStream)
        ensures
            r.at() == fresh(),
    {
        MarkdownStream { buf: String::new(), in_fence: false }
    }

    fn render_line(&mut self, line: &str) -> (r: String)
        ensures
            r@ == shown_line(old(self).in_fence, line@),
            final(self).in_fence == fence_after(old(self).in_fence, line@),
            final(self).buf == old(self).buf,
    {
        let t = trimmed_start(line);
        if begins_with(t.as_str(), "```") {
            self.in_fence = !self.in_fence;
            return String::new();
        }
        if self.in_fence {
            return dim(line);
        }
        render_plain(t.as_str())
    }

    /// Takes more text; gives what is to be shown, line by line.
    pub fn feed(&mut self, chunk: &str) -> (r: String)
        ensures
            (r@, final(self).at()) == fed(old(self).at(), chunk@),
    {
        let all = cat2(self.buf.as_str(), chunk);
        let parts = split_char(all.as_str(), '\n');
        let ghost ps = views(parts@);
        let ghost v = self.at();
        proof {
            lemma_split_nonempty(all@, '\n');
            assert(ps.len() == parts@.len());
        }
        let n: usize = parts.len() - 1;
        let ghost whole = ps.drop_last();
        let mut out = String::new();
        let mut i: usize = 0;
        assert(whole.take(0) =~= Seq::empty());
        while i < n
            invariant
                i <= n,
                n + 1 == parts@.len(),
                ps == views(parts@),
                whole == ps.drop_last(),
                v == old(self).at(),
                out@ == shown_lines(v.in_fence, whole.take(i as int)),
                self.in_fence == fence_after_all(v.in_fence, whole.take(i as int)),
            decreases n - i,
        {
            assert(whole.take(i + 1).drop_last() =~= whole.take(i as int));
            assert(whole.take(i + 1).last() == parts@[i as int]@);
            let line = self.render_line(parts[i].as_str());
            out.push_str(cat2(line.as_str(), "\n").as_str());
            i = i + 1;
        }
        assert(whole.take(i as int) =~= whole);
        self.buf = parts[n].clone();
        out
    }

    /// The text ends here; gives what is to be shown of a line that was not complete.
    pub fn flush(&mut self) -> (r: String)
        ensures
            (r@, final(self).at()) == flushed(old(self).at()),
    {
        if self.buf.as_str().is_empty() {
            return String::new();
        }
        let line = self.buf.clone();
        self.buf = String::new();
        self.render_line(line.as_str())
    }
}

impl Default for MarkdownStream {
    fn default() -> (r: Self)
        ensures
            r.at() == fresh(),
    {
        MarkdownStream::new()
    }
}

/// Renders a whole text.
pub fn render_str(text: &str) -> (r: String)
    ensures
        r@ == rendered(text@),
{
    let mut md = MarkdownStream::new();
    let a = md.feed(text);
    let b = md.flush();
    cat2(a.as_str(), b.as_str())
}

/// What a single task prints at its end: nothing on a terminal, where the text was shown as it
/// came; else the whole text, rendered, with a newline at its end.
pub open spec fn tail(text: Seq<char>, stdout_is_tty: bool) -> Option<Seq<char>> {
    if stdout_is_tty {
        None
    } else if rendered(text).len() > 0 && rendered(text).last() == '\n' {
        Some(rendered(text))
    } else {
        Some(rendered(text).push('\n'))
    }
}

/// Computes [`tail`].
pub fn one_shot_tail(text: &str, stdout_is_tty: bool) -> (r: Option<String>)
    ensures
        match r {
            Some(s) => tail(text@, stdout_is_tty) == Some(s@),
            None => tail(text@, stdout_is_tty) is None,
        },
{
    if stdout_is_tty {
        return None;
    }
    let mut out = render_str(text);
    let v = to_chars(out.as_str());
    if v.len() == 0 || v[v.len() - 1] != '\n' {
        out.push('\n');
    }
    Some(out)
}

// ---- laws ----

/// Splitting what stands behind a text is splitting it with the last piece of that text.
proof fn lemma_split_behind(x: Seq<char>, y: Seq<char>, c: char)
    ensures
        split(x + y, c) == split(x, c).drop_last() + split(split(x, c).last() + y, c),
    decreases y.len(),
{
    lemma_split_nonempty(x, c);
    let p = split(x, c);
    if y.len() == 0 {
        assert(x + y =~= x);
        assert(p.last() + y =~= p.last());
        lemma_split_alone(x, c);
        assert(p =~= p.drop_last() + seq![p.last()]);
    } else {
        let z = y.drop_last();
        lemma_split_behind(x, z, c);
        lemma_split_nonempty(p.last() + z, c);
        assert(x + y =~= (x + z).push(y.last()));
        assert(p.last() + y =~= (p.last() + z).push(y.last()));
        lemma_split_push(x + z, y.last(), c);
        lemma_split_push(p.last() + z, y.last(), c);
        let q = split(p.last() + z, c);
        let whole = p.drop_last() + q;
        assert(split(x + z, c) == whole);
        assert(whole.last() == q.last());
        if y.last() == c {
            assert(whole.push(Seq::empty()) =~= p.drop_last() + q.push(Seq::empty()));
        } else {
            let w = q.last().push(y.last());
            assert(whole.drop_last().push(w) =~= p.drop_last() + q.drop_last().push(w));
        }
    }
}

/// The last piece holds no separator, so splitting it gives it alone.
proof fn lemma_split_alone(x: Seq<char>, c: char)
    ensures
        split(split(x, c).last(), c) == seq![split(x, c).last()],
    decreases x.len(),
{
    lemma_split_nonempty(x, c);
    if x.len() > 0 {
        lemma_split_nonempty(x.drop_last(), c);
        lemma_split_alone(x.drop_last(), c);
        let last = split(x.drop_last(), c).last();
        if x.last() == c {
            assert(split(Seq::<char>::empty(), c) =~= seq![Seq::<char>::empty()]);
        } else {
            lemma_split_push(last, x.last(), c);
            assert(seq![last].drop_last().push(last.push(x.last())) =~= seq![last.push(x.last())]);
        }
    } else {
        assert(split(Seq::<char>::empty(), c) =~= seq![Seq::<char>::empty()]);
    }
}

proof fn lemma_lines_add(fence: bool, a: Seq<Seq<char>>, b: Seq<Seq<char>>)
    ensures
        fence_after_all(fence, a + b) == fence_after_all(fence_after_all(fence, a), b),
        shown_lines(fence, a + b) == shown_lines(fence, a) + shown_lines(
            fence_after_all(fence, a),
            b,
        ),
    decreases b.len(),
{
    if b.len() == 0 {
        assert(a + b =~= a);
        assert(shown_lines(fence, a) + Seq::<char>::empty() =~= shown_lines(fence, a));
    } else {
        lemma_lines_add(fence, a, b.drop_last());
        assert((a + b).drop_last() =~= a + b.drop_last());
        assert((a + b).last() == b.last());
        let mid = fence_after_all(fence, a);
        let one = shown_line(fence_after_all(mid, b.drop_last()), b.last()) + "\n"@;
        assert(shown_lines(fence, a) + shown_lines(mid, b.drop_last()) + one =~= shown_lines(
            fence,
            a,
        ) + (shown_lines(mid, b.drop_last()) + one));
    }
}

/// How a text is cut into chunks makes no difference: two chunks show what the two in one would,
/// and leave the stream as that would.
pub proof fn law_chunks_make_no_difference(v: StreamView, a: Seq<char>, b: Seq<char>)
    ensures
        fed(v, a).0 + fed(fed(v, a).1, b).0 == fed(v, a + b).0,
        fed(fed(v, a).1, b).1 == fed(v, a + b).1,
{
    let x = v.buf + a;
    let p = split(x, '\n');
    let q = split(p.last() + b, '\n');
    lemma_split_behind(x, b, '\n');
    lemma_split_nonempty(x, '\n');
    lemma_split_nonempty(p.last() + b, '\n');
    assert(v.buf + (a + b) =~= x + b);
    let all = split(x + b, '\n');
    assert(all == p.drop_last() + q);
    assert(all.drop_last() =~= p.drop_last() + q.drop_last());
    assert(all.last() == q.last());
    lemma_lines_add(v.in_fence, p.drop_last(), q.drop_last());
}

/// What the marks of a line become breaks no line.
proof fn lemma_inline_unbroken(s: Seq<char>, i: int, m: Marks)
    requires
        0 <= i,
        !s.contains('\n'),
    ensures
        count_char(inline_from(s, i, m), '\n') == 0,
    decreases s.len() - i,
{
    lemma_styles_unbroken();
    lemma_count_none(Seq::empty(), '\n');
    if i < s.len() {
        let head = match piece_at(s, i, m) {
            Piece::Text => seq![s[i]],
            Piece::Mark(k) => mark_style(m, k),
            Piece::Double(k) => mark_style(m, k),
        };
        assert(s[i] != '\n');
        lemma_count_none(seq![s[i]], '\n');
        match piece_at(s, i, m) {
            Piece::Text => {
                lemma_inline_unbroken(s, i + 1, m);
                lemma_count_add(head, inline_from(s, i + 1, m), '\n');
            },
            Piece::Mark(k) => {
                lemma_inline_unbroken(s, i + 1, k);
                lemma_count_add(head, inline_from(s, i + 1, k), '\n');
            },
            Piece::Double(k) => {
                lemma_inline_unbroken(s, i + 2, k);
                lemma_count_add(head, inline_from(s, i + 2, k), '\n');
            },
        }
    }
}

/// No style breaks a line.
proof fn lemma_styles_unbroken()
    ensures
        count_char(CODE@, '\n') == 0,
        count_char(BOLD@, '\n') == 0,
        count_char(ITALIC@, '\n') == 0,
        count_char(RESET@, '\n') == 0,
        count_char(DIM@, '\n') == 0,
        count_char(ACCENT@, '\n') == 0,
        count_char("•"@, '\n') == 0,
        count_char(" "@, '\n') == 0,
{
    reveal_strlit("\x1b[96m");
    reveal_strlit("\x1b[1m");
    reveal_strlit("\x1b[3m");
    reveal_strlit("\x1b[0m");
    reveal_strlit("\x1b[2m");
    reveal_strlit("\x1b[38;2;59;130;246m");
    reveal_strlit("•");
    reveal_strlit(" ");
    lemma_count_none(CODE@, '\n');
    lemma_count_none(BOLD@, '\n');
    lemma_count_none(ITALIC@, '\n');
    lemma_count_none(RESET@, '\n');
    lemma_count_none(DIM@, '\n');
    lemma_count_none(ACCENT@, '\n');
    lemma_count_none("•"@, '\n');
    lemma_count_none(" "@, '\n');
}

/// A part of a line breaks no line.
proof fn lemma_part_unbroken(s: Seq<char>, k: int)
    requires
        0 <= k <= s.len(),
        !s.contains('\n'),
    ensures
        !s.skip(k).contains('\n'),
{
    if s.skip(k).contains('\n') {
        let j = s.skip(k).index_of('\n');
        assert(s[k + j] == '\n');
    }
}

proof fn lemma_hashes_suffix(s: Seq<char>) -> (k: int)
    ensures
        0 <= k <= s.len(),
        without_hashes(s) == s.skip(k),
    decreases s.len(),
{
    if s.len() > 0 && s[0] == '#' {
        let k = lemma_hashes_suffix(s.skip(1));
        assert(s.skip(1).skip(k) =~= s.skip(k + 1));
        k + 1
    } else {
        assert(s.skip(0) =~= s);
        0
    }
}

/// What is shown of a line breaks no line.
proof fn lemma_line_unbroken(fence: bool, line: Seq<char>)
    requires
        !line.contains('\n'),
    ensures
        count_char(shown_line(fence, line), '\n') == 0,
{
    let t = trim_start(line);
    lemma_styles_unbroken();
    lemma_count_none(line, '\n');
    lemma_trim_start_shape(line);
    lemma_part_unbroken(line, line.len() - t.len());
    lemma_inline_unbroken(t, 0, no_marks());
    lemma_count_add(DIM@ + line, RESET@, '\n');
    lemma_count_add(DIM@, line, '\n');
    let k = lemma_hashes_suffix(t);
    lemma_part_unbroken(t, k);
    lemma_trim_start_shape(t.skip(k));
    let h = trim_start(t.skip(k));
    lemma_part_unbroken(t.skip(k), t.skip(k).len() - h.len());
    lemma_inline_unbroken(h, 0, no_marks());
    lemma_count_add(BOLD@ + inline(h), RESET@, '\n');
    lemma_count_add(BOLD@, inline(h), '\n');
    if is_item(t) {
        reveal_strlit("- ");
        reveal_strlit("* ");
        lemma_part_unbroken(t, 2);
        let r = t.skip(2);
        lemma_inline_unbroken(r, 0, no_marks());
        lemma_count_add(ACCENT@ + "•"@ + RESET@ + " "@, inline(r), '\n');
        lemma_count_add(ACCENT@ + "•"@ + RESET@, " "@, '\n');
        lemma_count_add(ACCENT@ + "•"@, RESET@, '\n');
        lemma_count_add(ACCENT@, "•"@, '\n');
    }
}

proof fn lemma_lines_shown(fence: bool, ls: Seq<Seq<char>>)
    requires
        forall|i: int| 0 <= i < ls.len() ==> !(#[trigger] ls[i]).contains('\n'),
    ensures
        count_char(shown_lines(fence, ls), '\n') == ls.len(),
        ls.len() > 0 ==> shown_lines(fence, ls).len() > 0 && shown_lines(fence, ls).last() == '\n',
    decreases ls.len(),
{
    reveal_strlit("\n");
    if ls.len() > 0 {
        let front = ls.drop_last();
        assert forall|i: int| 0 <= i < front.len() implies !(#[trigger] front[i]).contains('\n') by {
            assert(front[i] == ls[i]);
        }
        lemma_lines_shown(fence, front);
        assert(ls[ls.len() - 1] == ls.last());
        let f = fence_after_all(fence, front);
        let one = shown_line(f, ls.last());
        lemma_line_unbroken(f, ls.last());
        lemma_count_add(one, "\n"@, '\n');
        assert(count_char("\n"@, '\n') == 1) by {
            reveal_with_fuel(count_char, 2);
        }
        lemma_count_add(shown_lines(fence, front), one + "\n"@, '\n');
    }
}

/// Text that arrives shows one line for each newline in it, each ended by its own, and nothing else:
/// what stands behind the last newline is held back. A stream never holds a newline back.
pub proof fn law_lines_are_shown_when_they_end(v: StreamView, chunk: Seq<char>)
    requires
        !v.buf.contains('\n'),
    ensures
        count_char(fed(v, chunk).0, '\n') == count_char(chunk, '\n'),
        count_char(chunk, '\n') == 0 ==> fed(v, chunk).0.len() == 0 && fed(v, chunk).1.buf == v.buf
            + chunk,
        count_char(chunk, '\n') > 0 ==> fed(v, chunk).0.last() == '\n' && fed(v, chunk).1.buf == split(
            chunk,
            '\n',
        ).last(),
        !fed(v, chunk).1.buf.contains('\n'),
        !flushed(v).1.buf.contains('\n'),
        !fresh().buf.contains('\n'),
{
    let s = v.buf + chunk;
    let p = split(s, '\n');
    lemma_split_pieces(s, '\n');
    lemma_split_nonempty(s, '\n');
    lemma_split_count(s, '\n');
    lemma_count_add(v.buf, chunk, '\n');
    lemma_count_none(v.buf, '\n');
    lemma_count_none(chunk, '\n');
    let full = p.drop_last();
    assert forall|i: int| 0 <= i < full.len() implies !(#[trigger] full[i]).contains('\n') by {
        assert(full[i] == p[i]);
    }
    lemma_lines_shown(v.in_fence, full);
    assert(p[p.len() - 1] == p.last());
    lemma_split_whole(v.buf, '\n');
    lemma_split_count(chunk, '\n');
    lemma_split_add(v.buf, chunk, '\n');
    if count_char(chunk, '\n') == 0 {
        lemma_split_whole(chunk, '\n');
    }
}

proof fn lemma_reset_ends(s: Seq<char>, i: int, m: Marks)
    requires
        marks_after(s, i, m) != no_marks(),
    ensures
        RESET@.is_suffix_of(inline_from(s, i, m)),
    decreases s.len() - i,
{
    let r = inline_from(s, i, m);
    let n = RESET@.len() as int;
    if i < s.len() {
        let (head, rest) = match piece_at(s, i, m) {
            Piece::Text => (seq![s[i]], inline_from(s, i + 1, m)),
            Piece::Mark(k) => (mark_style(m, k), inline_from(s, i + 1, k)),
            Piece::Double(k) => (mark_style(m, k), inline_from(s, i + 2, k)),
        };
        match piece_at(s, i, m) {
            Piece::Text => lemma_reset_ends(s, i + 1, m),
            Piece::Mark(k) => lemma_reset_ends(s, i + 1, k),
            Piece::Double(k) => lemma_reset_ends(s, i + 2, k),
        }
        assert(r == head + rest);
        assert(r.subrange(r.len() - n, r.len() as int) =~= rest.subrange(
            rest.len() - n,
            rest.len() as int,
        ));
    }
}

/// No style outlives its line: where a mark is not closed, the line ends by ending all styles.
pub proof fn law_styles_end_with_the_line(s: Seq<char>)
    requires
        marks_after(s, 0, no_marks()) != no_marks(),
    ensures
        RESET@.is_suffix_of(inline(s)),
{
    lemma_reset_ends(s, 0, no_marks());
}

proof fn lemma_no_marks(s: Seq<char>, i: int)
    requires
        0 <= i <= s.len(),
        forall|k: int| 0 <= k < s.len() ==> s[k] != '`' && s[k] != '*',
    ensures
        inline_from(s, i, no_marks()) == s.skip(i),
    decreases s.len() - i,
{
    if i < s.len() {
        lemma_no_marks(s, i + 1);
        assert(seq![s[i]] + s.skip(i + 1) =~= s.skip(i));
    } else {
        assert(s.skip(i) =~= Seq::empty());
    }
}

/// A line in which no mark stands is shown as it is.
pub proof fn law_plain_text_is_left_alone(s: Seq<char>)
    requires
        forall|k: int| 0 <= k < s.len() ==> s[k] != '`' && s[k] != '*',
    ensures
        inline(s) == s,
{
    lemma_no_marks(s, 0);
    assert(s.skip(0) =~= s);
}


proof fn lemma_run(s: Seq<char>, i: int, j: int, m: Marks)
    requires
        0 <= i <= j <= s.len(),
        forall|k: int| i <= k < j ==> #[trigger] s[k] != '`',
        m.code || (forall|k: int| i <= k < j ==> #[trigger] s[k] != '*'),
    ensures
        inline_from(s, i, m) == s.subrange(i, j) + inline_from(s, j, m),
    decreases j - i,
{
    if i < j {
        assert(s[i] != '`');
        lemma_run(s, i + 1, j, m);
        assert(seq![s[i]] + (s.subrange(i + 1, j) + inline_from(s, j, m)) =~= s.subrange(i, j)
            + inline_from(s, j, m));
    } else {
        assert(s.subrange(i, j) =~= Seq::empty());
        assert(Seq::<char>::empty() + inline_from(s, j, m) =~= inline_from(s, j, m));
    }
}

/// Whether nothing in a text is a mark.
pub open spec fn markless(s: Seq<char>) -> bool {
    forall|k: int| 0 <= k < s.len() ==> #[trigger] s[k] != '`' && s[k] != '*'
}

/// Text between marks is shown in its style, and the marks are not shown: between backquotes as code,
/// whatever else stands there, between two stars on either side bold, and between one on either side
/// italic.
pub proof fn law_marked_text_is_styled(a: Seq<char>, b: Seq<char>, c: Seq<char>)
    requires
        markless(a),
        markless(c),
    ensures
        !b.contains('`') ==> inline(a + seq!['`'] + b + seq!['`'] + c) == a + CODE@ + b + RESET@ + c,
        markless(b) ==> inline(a + seq!['*', '*'] + b + seq!['*', '*'] + c) == a + BOLD@ + b + RESET@
            + c,
        markless(b) && b.len() > 0 && !crate::text::is_white(b[0]) ==> inline(
            a + seq!['*'] + b + seq!['*'] + c,
        ) == a + ITALIC@ + b + RESET@ + c,
{
    let none = no_marks();
    if !b.contains('`') {
        lemma_around(a, seq!['`'], b, seq!['`'], c, Marks { code: true, ..none }, CODE@);
    }
    if markless(b) {
        lemma_around(a, seq!['*', '*'], b, seq!['*', '*'], c, Marks { bold: true, ..none }, BOLD@);
        if b.len() > 0 && !crate::text::is_white(b[0]) {
            lemma_around(a, seq!['*'], b, seq!['*'], c, Marks { italic: true, ..none }, ITALIC@);
        }
    }
}

proof fn lemma_around(
    a: Seq<char>,
    x: Seq<char>,
    b: Seq<char>,
    y: Seq<char>,
    c: Seq<char>,
    m: Marks,
    style: Seq<char>,
)
    requires
        markless(a),
        markless(c),
        x == y,
        ({
            ||| x == seq!['`'] && m == Marks { code: true, ..no_marks() } && style == CODE@
                && !b.contains('`')
            ||| x == seq!['*', '*'] && m == Marks { bold: true, ..no_marks() } && style == BOLD@
                && markless(b)
            ||| x == seq!['*'] && m == Marks { italic: true, ..no_marks() } && style == ITALIC@
                && markless(b) && b.len() > 0 && !crate::text::is_white(b[0])
        }),
    ensures
        inline(a + x + b + y + c) == a + style + b + RESET@ + c,
{
    let s = a + x + b + y + c;
    let none = no_marks();
    let n = a.len() as int;
    let p = n + x.len();
    let q = p + b.len();
    let r = q + y.len();
    assert forall|k: int| 0 <= k < n implies #[trigger] s[k] != '`' && s[k] != '*' by {
        assert(s[k] == a[k]);
    }
    assert forall|k: int| r <= k < s.len() implies #[trigger] s[k] != '`' && s[k] != '*' by {
        assert(s[k] == c[k - r]);
    }
    assert forall|k: int| p <= k < q implies #[trigger] s[k] != '`' && (m.code || s[k] != '*') by {
        assert(s[k] == b[k - p]);
        assert(b.contains(b[k - p]));
    }
    lemma_run(s, 0, n, none);
    lemma_run(s, p, q, m);
    lemma_run(s, r, s.len() as int, none);
    assert(s[n] == x[0]);
    assert(s[q] == y[0]);
    if x.len() == 2 {
        assert(s[n + 1] == x[1]);
        assert(s[q + 1] == y[1]);
    } else if x[0] == '*' {
        assert(s[n + 1] == b[0]);
        assert(b[0] != '*');
    }
    assert(inline_from(s, n, none) == style + inline_from(s, p, m));
    assert(inline_from(s, q, m) == RESET@ + inline_from(s, r, none));
    assert(s.subrange(0, n) =~= a);
    assert(s.subrange(p, q) =~= b);
    assert(s.subrange(r, s.len() as int) =~= c);
    assert(inline_from(s, s.len() as int, none) =~= Seq::empty());
    assert(inline(s) =~= a + style + b + RESET@ + c);
}

proof fn lemma_hashes(t: Seq<char>, k: int)
    requires
        0 <= k < t.len(),
        forall|i: int| 0 <= i < k ==> #[trigger] t[i] == '#',
        t[k] != '#',
    ensures
        without_hashes(t) == t.skip(k),
    decreases k,
{
    if k > 0 {
        assert(t[0] == '#');
        assert forall|i: int| 0 <= i < k - 1 implies #[trigger] t.skip(1)[i] == '#' by {
            assert(t[i + 1] == '#');
        }
        lemma_hashes(t.skip(1), k - 1);
        assert(t.skip(1).skip(k - 1) =~= t.skip(k));
    } else {
        assert(t.skip(0) =~= t);
    }
}

/// Outside of code, hashes and a blank before a text make a bold heading of it, a dash or a star and
/// a blank an item behind a bullet; three backquotes begin and end code, are not shown, and what
/// stands between is shown as it is.
pub proof fn law_lines_are_shown_by_their_kind(fence: bool, k: int, t: Seq<char>, line: Seq<char>)
    requires
        k > 0,
        t.len() > 0,
        !crate::text::is_white(t[0]),
    ensures
        shown_line(false, Seq::new(k as nat, |i: int| '#') + seq![' '] + t) == BOLD@ + inline(t)
            + RESET@,
        shown_line(false, seq!['-', ' '] + t) == ACCENT@ + "•"@ + RESET@ + " "@ + inline(t),
        shown_line(false, seq!['*', ' '] + t) == ACCENT@ + "•"@ + RESET@ + " "@ + inline(t),
        shown_line(fence, seq!['`', '`', '`'] + line).len() == 0,
        fence_after(fence, seq!['`', '`', '`'] + line) == !fence,
        !line.contains('`') ==> shown_line(true, line) == DIM@ + line + RESET@ && fence_after(
            fence,
            line,
        ) == fence,
        markless(t) && t[0] != '#' && t[0] != '-' ==> shown_line(false, t) == t && shown_line(
            false,
            seq![' '] + t,
        ) == t,
{
    reveal_strlit("- ");
    reveal_strlit("* ");
    reveal_strlit("```");
    let h = Seq::new(k as nat, |i: int| '#') + seq![' '] + t;
    assert(h[0] == '#');
    assert(trim_start(h) == h);
    assert("```"@[0] == '`');
    assert(!is_fence(h));
    assert(h[k] == ' ');
    lemma_hashes(h, k);
    let u = h.skip(k);
    assert(u[0] == ' ');
    assert(u.skip(1) =~= t);
    reveal_with_fuel(trim_start, 2);
    assert(trim_start(u) == t);
    assert(heading(h) == t);
    let d = seq!['-', ' '] + t;
    assert(d[0] == '-');
    assert(!is_fence(d));
    assert("- "@ =~= d.take(2));
    assert(is_item(d));
    assert(d.skip(2) =~= t);
    let e = seq!['*', ' '] + t;
    assert(e[0] == '*');
    assert(!is_fence(e));
    assert("* "@ =~= e.take(2));
    assert(is_item(e));
    assert(e.skip(2) =~= t);
    let f = seq!['`', '`', '`'] + line;
    assert(f[0] == '`');
    assert("```"@ =~= f.take(3));
    assert(is_fence(f));
    if !line.contains('`') {
        lemma_trim_start_shape(line);
        if is_fence(line) {
            let x = trim_start(line);
            assert(x[0] == "```"@[0]);
            assert(x[0] == line[line.len() - x.len()]);
        }
    }
    if markless(t) && t[0] != '#' && t[0] != '-' {
        assert(t[0] != '*' && t[0] != '`');
        let w = seq![' '] + t;
        assert(w[0] == ' ');
        assert(w.skip(1) =~= t);
        assert(trim_start(w) == t);
        law_plain_text_is_left_alone(t);
        assert("- "@[0] == '-' && "* "@[0] == '*');
        assert(!is_fence(t));
        assert(!is_fence(w));
        assert(!is_item(t));
    }
}


/// Where the answer does not go to a terminal it is printed at the end, rendered, and ends a line.
pub proof fn law_answer_is_printed_once(text: Seq<char>)
    ensures
        tail(text, true) is None,
        tail(text, false) is Some,
        rendered(text).is_prefix_of(tail(text, false)->0),
        tail(text, false)->0.len() > 0 && tail(text, false)->0.last() == '\n',
        tail(text, false)->0.len() <= rendered(text).len() + 1,
        rendered(text).len() > 0 && rendered(text).last() == '\n' ==> tail(text, false)->0 == rendered(
            text,
        ),
{
    let r = rendered(text);
    assert(r =~= r.push('\n').take(r.len() as int));
}

} // verus!
