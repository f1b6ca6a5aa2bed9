//! The input line: a text with a cursor, seen through a window, and what was entered before.
use vstd::prelude::*;
use vstd::string::*;
use crate::text::{
    all_white, blank, cat5, from_chars, opt_text, repeat, repeated, sub_text, to_chars, trim,
    trimmed, views,
};
use crate::ui::key::{Key, KeyPress};
use crate::ui::theme::{dim, goto_col, styled, to_col, ACCENT, CLEAR_LINE, DIM, RESET};
use crate::ui::width::{char_cols, char_width};

verus! {

// ---- columns ----

/// The columns that a character takes in the input line; a control character takes one.
pub open spec fn cols(c: char) -> nat {
    match char_cols(c) {
        Some(n) => n as nat,
        None => 1,
    }
}

/// The columns that characters take one by one.
pub open spec fn total_cols(s: Seq<char>) -> nat
    decreases s.len(),
{
    if s.len() == 0 {
        0
    } else {
        total_cols(s.drop_last()) + cols(s.last())
    }
}

/// Whether the first `n` characters are as many as fit into `width` columns.
pub open spec fn fits_exactly(s: Seq<char>, width: nat, n: int) -> bool {
    &&& 0 <= n <= s.len()
    &&& total_cols(s.take(n)) <= width
    &&& n < s.len() ==> total_cols(s.take(n + 1)) > width
}

/// How many of the first characters fit into `width` columns.
pub open spec fn fit(s: Seq<char>, width: nat) -> int {
    choose|n: int| fits_exactly(s, width, n)
}

proof fn lemma_total_grows(s: Seq<char>, i: int, j: int)
    requires
        0 <= i <= j <= s.len(),
    ensures
        total_cols(s.take(i)) <= total_cols(s.take(j)),
    decreases j - i,
{
    if i < j {
        assert(s.take(j).drop_last() =~= s.take(j - 1));
        lemma_total_grows(s, i, j - 1);
    }
}

/// As many characters fit as [`fits_exactly`] says: there is one such number.
proof fn lemma_fit(s: Seq<char>, width: nat, n: int)
    requires
        fits_exactly(s, width, n),
    ensures
        fit(s, width) == n,
{
    let m = fit(s, width);
    if m < n {
        lemma_total_grows(s, m + 1, n);
    }
    if n < m {
        lemma_total_grows(s, n + 1, m);
    }
}

fn char_columns(c: char) -> (r: usize)
    ensures
        r == cols(c),
{
    match char_width(c) {
        Some(n) => n,
        None => 1,
    }
}

/// The sum of numbers of columns.
pub open spec fn sum_cols(ns: Seq<usize>) -> nat
    decreases ns.len(),
{
    if ns.len() == 0 {
        0
    } else {
        sum_cols(ns.drop_last()) + ns.last() as nat
    }
}

/// Whether the first `n` of some widths, and no more, fit into `width` columns.
pub open spec fn cols_fit_exactly(ns: Seq<usize>, width: nat, n: int) -> bool {
    &&& 0 <= n <= ns.len()
    &&& sum_cols(ns.take(n)) <= width
    &&& n < ns.len() ==> sum_cols(ns.take(n + 1)) > width
}

/// How many of the widths from `from` on fit into `width` columns, one after the other.
pub fn fit_cols(cols: &Vec<usize>, from: usize, width: usize) -> (r: usize)
    requires
        from <= cols@.len(),
    ensures
        cols_fit_exactly(cols@.skip(from as int), width as nat, r as int),
{
    let ghost s = cols@.skip(from as int);
    let total: usize = cols.len();
    let mut w: usize = 0;
    let mut i: usize = 0;
    assert(s.take(0) =~= Seq::empty());
    while i < total - from
        invariant
            total == cols@.len(),
            from <= cols@.len(),
            s == cols@.skip(from as int),
            i <= total - from,
            w <= width,
            w == sum_cols(s.take(i as int)),
        decreases total - i,
    {
        let c: usize = cols[from + i];
        assert(s.take(i + 1).drop_last() =~= s.take(i as int));
        assert(s.take(i + 1).last() == c);
        if c > width - w {
            return i;
        }
        w = w + c;
        i = i + 1;
    }
    i
}

/// The widths of characters add up as the characters do.
proof fn lemma_sum_cols(ns: Seq<usize>, s: Seq<char>)
    requires
        ns.len() == s.len(),
        forall|i: int| 0 <= i < ns.len() ==> #[trigger] ns[i] == cols(s[i]),
    ensures
        sum_cols(ns) == total_cols(s),
    decreases ns.len(),
{
    if ns.len() > 0 {
        assert(ns[ns.len() - 1] == cols(s[s.len() - 1]));
        assert forall|i: int| 0 <= i < ns.drop_last().len() implies #[trigger] ns.drop_last()[i] == cols(
            s.drop_last()[i],
        ) by {
            assert(ns[i] == cols(s[i]));
        }
        lemma_sum_cols(ns.drop_last(), s.drop_last());
    }
}

/// How many of the characters from `from` on fit into `width` columns.
fn fit_width(v: &Vec<char>, from: usize, width: usize) -> (r: usize)
    requires
        from <= v@.len(),
    ensures
        fits_exactly(v@.skip(from as int), width as nat, r as int),
        r == fit(v@.skip(from as int), width as nat),
        from + r <= v@.len(),
{
    let ghost s = v@.skip(from as int);
    let mut widths: Vec<usize> = Vec::new();
    let mut i: usize = 0;
    while i < v.len()
        invariant
            i <= v@.len(),
            widths@.len() == i,
            forall|k: int| 0 <= k < i ==> #[trigger] widths@[k] == cols(v@[k]),
        decreases v@.len() - i,
    {
        widths.push(char_columns(v[i]));
        i = i + 1;
    }
    let n = fit_cols(&widths, from, width);
    proof {
        let ns = widths@.skip(from as int);
        lemma_sum_cols(ns.take(n as int), s.take(n as int));
        if n < s.len() {
            lemma_sum_cols(ns.take(n + 1), s.take(n + 1));
        }
        lemma_fit(s, width as nat, n as int);
    }
    n
}

// ---- the line ----

/// A line that is being edited: its characters, the cursor between them, and the window through
/// which it is seen.
#[derive(Debug)]
pub struct InputState {
    pub text: Vec<char>,
    pub cursor: usize,
    pub scroll: usize,
    pub width: usize,
}

/// What an edited line holds.
#[verifier::ext_equal]
pub struct InputView {
    pub text: Seq<char>,
    pub cursor: int,
    pub scroll: int,
    pub width: nat,
}

/// The window's first character: the first one, from where the window stood or from the cursor,
/// whichever comes first, from which on the cursor is in the window.
pub open spec fn window(text: Seq<char>, cursor: int, width: nat, from: int) -> int
    decreases cursor - from,
{
    if from >= cursor || cursor <= from + fit(text.skip(from), width) {
        from
    } else {
        window(text, cursor, width, from + 1)
    }
}

impl InputView {
    /// Where the window goes.
    pub open spec fn shown_from(self) -> int {
        window(
            self.text,
            self.cursor,
            self.width,
            if self.scroll <= self.cursor {
                self.scroll
            } else {
                self.cursor
            },
        )
    }

    /// What is seen.
    pub open spec fn visible(self) -> Seq<char> {
        let from = self.shown_from();
        self.text.subrange(from, from + fit(self.text.skip(from), self.width))
    }

    /// The column of the cursor in the window.
    pub open spec fn column(self) -> nat {
        total_cols(self.text.subrange(self.shown_from(), self.cursor))
    }
}

/// An empty line.
pub open spec fn cleared(v: InputView) -> InputView {
    InputView { text: Seq::empty(), cursor: 0, scroll: 0, ..v }
}

/// One character more at the cursor.
pub open spec fn inserted(v: InputView, c: char) -> InputView {
    InputView { text: v.text.insert(v.cursor, c), cursor: v.cursor + 1, ..v }
}

/// The character before the cursor is taken out.
pub open spec fn rubbed_out(v: InputView) -> InputView {
    if v.cursor > 0 {
        InputView { text: v.text.remove(v.cursor - 1), cursor: v.cursor - 1, ..v }
    } else {
        v
    }
}

/// The character at the cursor is taken out.
pub open spec fn deleted(v: InputView) -> InputView {
    if v.cursor < v.text.len() {
        InputView { text: v.text.remove(v.cursor), ..v }
    } else {
        v
    }
}

/// The line holds another text, with the cursor at its end.
pub open spec fn replaced_by(v: InputView, s: Seq<char>) -> InputView {
    InputView { text: s, cursor: s.len() as int, scroll: 0, ..v }
}

proof fn lemma_take(s: Seq<char>, i: int)
    requires
        0 <= i < s.len(),
    ensures
        total_cols(s.take(i + 1)) == total_cols(s.take(i)) + cols(s[i]),
{
    assert(s.take(i + 1).drop_last() =~= s.take(i));
}

impl InputState {
    /// What the line holds.
    pub open spec fn at(&self) -> InputView {
        InputView {
            text: self.text@,
            cursor: self.cursor as int,
            scroll: self.scroll as int,
            width: self.width as nat,
        }
    }

    /// The cursor stands in the text, and the window has room for a wide character.
    pub open spec fn well_formed(&self) -> bool {
        0 <= self.at().cursor <= self.at().text.len() && self.at().width >= 4 && self.at().scroll
            >= 0
    }

    /// An empty line, seen through a window of `width` columns, of four at least.
    pub fn new(width: usize) -> (r: InputState)
        ensures
            r.well_formed(),
            r.at() == (InputView {
                text: Seq::empty(),
                cursor: 0,
                scroll: 0,
                width: if width >= 4 {
                    width as nat
                } else {
                    4
                },
            }),
    {
        InputState {
            text: Vec::new(),
            cursor: 0,
            scroll: 0,
            width: if width >= 4 {
                width
            } else {
                4
            },
        }
    }

    pub fn insert(&mut self, c: char)
        requires
            old(self).well_formed(),
        ensures
            final(self).well_formed(),
            final(self).at() == inserted(old(self).at(), c),
    {
        self.text.insert(self.cursor, c);
        let n: usize = self.text.len();
        self.cursor = self.cursor + 1;
        assert(n == self.text@.len());
    }

    pub fn backspace(&mut self)
        requires
            old(self).well_formed(),
        ensures
            final(self).well_formed(),
            final(self).at() == rubbed_out(old(self).at()),
    {
        if self.cursor > 0 {
            self.cursor = self.cursor - 1;
            self.text.remove(self.cursor);
        }
    }

    pub fn delete(&mut self)
        requires
            old(self).well_formed(),
        ensures
            final(self).well_formed(),
            final(self).at() == deleted(old(self).at()),
    {
        if self.cursor < self.text.len() {
            self.text.remove(self.cursor);
        }
    }

    pub fn left(&mut self)
        requires
            old(self).well_formed(),
        ensures
            final(self).well_formed(),
            final(self).at() == (InputView {
                cursor: if old(self).at().cursor > 0 {
                    old(self).at().cursor - 1
                } else {
                    0
                },
                ..old(self).at()
            }),
    {
        if self.cursor > 0 {
            self.cursor = self.cursor - 1;
        }
    }

    pub fn right(&mut self)
        requires
            old(self).well_formed(),
        ensures
            final(self).well_formed(),
            final(self).at() == (InputView {
                cursor: if old(self).at().cursor < old(self).at().text.len() {
                    old(self).at().cursor + 1
                } else {
                    old(self).at().cursor
                },
                ..old(self).at()
            }),
    {
        if self.cursor < self.text.len() {
            self.cursor = self.cursor + 1;
        }
    }

    pub fn home(&mut self)
        requires
            old(self).well_formed(),
        ensures
            final(self).well_formed(),
            final(self).at() == (InputView { cursor: 0, ..old(self).at() }),
    {
        self.cursor = 0;
    }

    pub fn end(&mut self)
        requires
            old(self).well_formed(),
        ensures
            final(self).well_formed(),
            final(self).at() == (InputView {
                cursor: old(self).at().text.len() as int,
                ..old(self).at()
            }),
    {
        self.cursor = self.text.len();
    }

    pub fn clear(&mut self)
        requires
            old(self).well_formed(),
        ensures
            final(self).well_formed(),
            final(self).at() == cleared(old(self).at()),
    {
        self.text.clear();
        self.cursor = 0;
        self.scroll = 0;
    }

    pub fn is_empty(&self) -> (r: bool)
        ensures
            r == (self.at().text.len() == 0),
    {
        self.text.len() == 0
    }

    pub fn text(&self) -> (r: String)
        ensures
            r@ == self.at().text,
    {
        from_chars(self.text.as_slice())
    }

    /// Puts another text into the line.
    pub fn set_text(&mut self, s: &str)
        requires
            old(self).well_formed(),
        ensures
            final(self).well_formed(),
            final(self).at() == replaced_by(old(self).at(), s@),
    {
        self.text = to_chars(s);
        self.cursor = self.text.len();
        self.scroll = 0;
    }

    /// Moves the window so that the cursor is in it; gives what is seen, and the column of the
    /// cursor.
    pub fn viewport(&mut self) -> (r: (String, usize))
        requires
            old(self).well_formed(),
        ensures
            final(self).well_formed(),
            final(self).at() == (InputView {
                scroll: old(self).at().shown_from(),
                ..old(self).at()
            }),
            r.0@ == old(self).at().visible(),
            r.1 == old(self).at().column(),
            r.1 <= old(self).at().width,
            old(self).at().shown_from() <= old(self).at().cursor,
            old(self).at().cursor <= old(self).at().shown_from() + r.0@.len(),
    {
        let ghost v = self.at();
        let mut scroll = self.scroll;
        if self.cursor < scroll {
            scroll = self.cursor;
        }
        let ghost first = scroll as int;
        let mut n = fit_width(&self.text, scroll, self.width);
        while scroll < self.cursor && n < self.cursor - scroll
            invariant
                self.at() == v,
                self.well_formed(),
                scroll <= self.cursor <= self.text@.len(),
                fits_exactly(v.text.skip(scroll as int), v.width, n as int),
                n == fit(v.text.skip(scroll as int), v.width),
                scroll + n <= v.text.len(),
                window(v.text, v.cursor, v.width, first) == window(
                    v.text,
                    v.cursor,
                    v.width,
                    scroll as int,
                ),
            decreases self.cursor - scroll,
        {
            scroll = scroll + 1;
            n = fit_width(&self.text, scroll, self.width);
        }
        assert(v.shown_from() == scroll);
        self.scroll = scroll;
        let total: usize = self.text.len();
        assert(scroll + n <= total);
        let visible = sub_text(self.text.as_slice(), scroll, scroll + n);
        let ghost rest = v.text.skip(scroll as int);
        let mut col: usize = 0;
        let mut i: usize = scroll;
        assert(rest.take(0) =~= Seq::empty());
        while i < self.cursor
            invariant
                scroll <= i <= self.cursor,
                self.cursor <= self.text@.len(),
                self.cursor <= scroll + n,
                self.text@ == v.text,
                self.width == v.width,
                rest == v.text.skip(scroll as int),
                fits_exactly(rest, v.width, n as int),
                col == total_cols(rest.take(i - scroll)),
                col <= self.width,
            decreases self.cursor - i,
        {
            let c = char_columns(self.text[i]);
            proof {
                lemma_take(rest, i - scroll);
                lemma_total_grows(rest, i - scroll + 1, n as int);
            }
            col = col + c;
            i = i + 1;
        }
        assert(rest.take(i - scroll) =~= v.text.subrange(scroll as int, v.cursor));
        (visible, col)
    }
}

/// What was typed is taken back by rubbing it out.
pub proof fn law_backspace_undoes_insert(v: InputView, c: char)
    requires
        0 <= v.cursor <= v.text.len(),
    ensures
        rubbed_out(inserted(v, c)) == v,
{
    let w = rubbed_out(inserted(v, c));
    assert(w.text =~= v.text);
}

/// The cursor stays in the text whatever is done to the line.
pub proof fn law_cursor_stays_in_the_text(v: InputView, c: char, s: Seq<char>)
    requires
        0 <= v.cursor <= v.text.len(),
    ensures
        0 <= inserted(v, c).cursor <= inserted(v, c).text.len(),
        0 <= rubbed_out(v).cursor <= rubbed_out(v).text.len(),
        0 <= deleted(v).cursor <= deleted(v).text.len(),
        0 <= cleared(v).cursor <= cleared(v).text.len(),
        0 <= replaced_by(v, s).cursor <= replaced_by(v, s).text.len(),
{
}

proof fn lemma_window(text: Seq<char>, cursor: int, width: nat, from: int)
    requires
        0 <= from <= cursor <= text.len(),
    ensures
        from <= window(text, cursor, width, from) <= cursor,
        window(text, cursor, width, from) == from || from < cursor,
        window(text, cursor, width, from) == cursor || cursor <= window(text, cursor, width, from)
            + fit(text.skip(window(text, cursor, width, from)), width),
    decreases cursor - from,
{
    if from < cursor && cursor > from + fit(text.skip(from), width) {
        lemma_window(text, cursor, width, from + 1);
    }
}

/// The window follows the cursor one way at a time: it starts neither behind the cursor nor before
/// the place where it stood, save where the cursor went before that place, to which it then goes;
/// and it stays where it is while the cursor is in it.
pub proof fn law_window_follows(v: InputView)
    requires
        0 <= v.cursor <= v.text.len(),
        0 <= v.scroll,
    ensures
        v.shown_from() <= v.cursor,
        v.scroll <= v.cursor ==> v.shown_from() >= v.scroll,
        v.scroll >= v.cursor ==> v.shown_from() == v.cursor,
        v.scroll <= v.cursor <= v.scroll + fit(v.text.skip(v.scroll), v.width) ==> v.shown_from()
            == v.scroll,
{
    let from = if v.scroll <= v.cursor {
        v.scroll
    } else {
        v.cursor
    };
    lemma_window(v.text, v.cursor, v.width, from);
}

// ---- what was entered before ----

/// What was entered in this session, and where one is in it.
#[derive(Debug)]
pub struct InputHistory {
    items: Vec<String>,
    draft: Option<String>,
    idx: Option<usize>,
}

/// What a history holds.
#[verifier::ext_equal]
pub struct HistoryView {
    pub items: Seq<Seq<char>>,
    pub draft: Option<Seq<char>>,
    pub idx: Option<int>,
}

/// A text was entered.
pub open spec fn remembered(h: HistoryView, s: Seq<char>) -> HistoryView {
    HistoryView {
        items: if all_white(s) {
            h.items
        } else {
            h.items.push(s)
        },
        draft: None,
        idx: None,
    }
}

/// One goes back: what is found, where there is anything before.
pub open spec fn back(h: HistoryView, current: Seq<char>) -> (Option<Seq<char>>, HistoryView) {
    if h.items.len() == 0 {
        (None, h)
    } else {
        match h.idx {
            None => {
                let i = h.items.len() - 1;
                (
                    Some(h.items[i]),
                    HistoryView { items: h.items, draft: Some(current), idx: Some(i) },
                )
            },
            Some(i) => if i == 0 {
                (None, h)
            } else {
                (Some(h.items[i - 1]), HistoryView { idx: Some(i - 1), ..h })
            },
        }
    }
}

/// One goes forward: what is found; behind the last text, what was being written.
pub open spec fn forward(h: HistoryView) -> (Option<Seq<char>>, HistoryView) {
    match h.idx {
        None => (None, h),
        Some(i) => if i + 1 >= h.items.len() {
            (h.draft, HistoryView { idx: None, ..h })
        } else {
            (Some(h.items[i + 1]), HistoryView { idx: Some(i + 1), ..h })
        },
    }
}

impl HistoryView {
    /// Where one is is a place in the history.
    pub open spec fn well_formed(self) -> bool {
        match self.idx {
            Some(i) => 0 <= i < self.items.len(),
            None => true,
        }
    }
}

impl InputHistory {
    pub closed spec fn at(&self) -> HistoryView {
        HistoryView {
            items: views(self.items@),
            draft: opt_text(self.draft),
            idx: match self.idx {
                Some(i) => Some(i as int),
                None => None,
            },
        }
    }

    /// Keeps what was entered, unless it is blank.
    pub fn push(&mut self, s: String)
        ensures
            final(self).at() == remembered(old(self).at(), s@),
            final(self).at().well_formed(),
    {
        if !blank(s.as_str()) {
            self.items.push(s);
            assert(views(self.items@) =~= views(old(self).items@).push(s@));
        }
        self.idx = None;
        self.draft = None;
    }

    /// Goes one text back, from what is being written; gives nothing at the first.
    pub fn prev(&mut self, current: &str) -> (r: Option<String>)
        requires
            old(self).at().well_formed(),
        ensures
            final(self).at().well_formed(),
            (opt_text(r), final(self).at()) == back(old(self).at(), current@),
    {
        if self.items.len() == 0 {
            return None;
        }
        match self.idx {
            None => {
                self.draft = Some(current.to_owned());
                self.idx = Some(self.items.len() - 1);
                Some(self.items[self.items.len() - 1].clone())
            },
            Some(i) => if i == 0 {
                None
            } else {
                self.idx = Some(i - 1);
                Some(self.items[i - 1].clone())
            },
        }
    }

    /// Goes one text forward; behind the last stands what was being written.
    pub fn next(&mut self) -> (r: Option<String>)
        requires
            old(self).at().well_formed(),
        ensures
            final(self).at().well_formed(),
            (opt_text(r), final(self).at()) == forward(old(self).at()),
    {
        match self.idx {
            None => None,
            Some(i) => {
                let n: usize = self.items.len();
                if i >= n - 1 {
                    self.idx = None;
                    match &self.draft {
                        Some(d) => Some(d.clone()),
                        None => None,
                    }
                } else {
                    self.idx = Some(i + 1);
                    Some(self.items[i + 1].clone())
                }
            },
        }
    }
}

impl Default for InputHistory {
    fn default() -> (r: Self)
        ensures
            r.at() == (HistoryView { items: Seq::empty(), draft: None, idx: None }),
            r.at().well_formed(),
    {
        let r = InputHistory { items: Vec::new(), draft: None, idx: None };
        assert(r.at().items =~= Seq::empty());
        r
    }
}

/// Going back and then forward leads to where one was: to the text one was at, or to what one was
/// writing.
pub proof fn law_forward_undoes_back(h: HistoryView, current: Seq<char>)
    requires
        h.well_formed(),
        back(h, current).0 is Some,
    ensures
        forward(back(h, current).1).1.idx == h.idx,
        forward(back(h, current).1).0 == (match h.idx {
            Some(i) => Some(h.items[i]),
            None => Some(current),
        }),
{
}

// ---- the input box ----

/// What came of reading an input.
#[derive(Debug, PartialEq)]
pub enum InputOutcome {
    Submitted(String),
    Exit,
}

/// What a line read without a box means: a blank one ends the session.
pub fn line_outcome(line: &str) -> (r: InputOutcome)
    ensures
        match r {
            InputOutcome::Exit => all_white(line@),
            InputOutcome::Submitted(t) => !all_white(line@) && t@ == trim(line@),
        },
{
    if blank(line) {
        InputOutcome::Exit
    } else {
        InputOutcome::Submitted(trimmed(line))
    }
}

/// How wide the box is on a terminal of so many columns.
pub open spec fn box_cols(term: int) -> int {
    if term < 2 {
        0
    } else if term - 2 < 100 {
        term - 2
    } else {
        100
    }
}

/// How wide the box is on a terminal of so many columns.
pub fn box_width(term: u16) -> (r: usize)
    ensures
        r == box_cols(term as int),
{
    if term < 2 {
        0
    } else if term - 2 < 100 {
        (term - 2) as usize
    } else {
        100
    }
}

/// The upper or lower edge of a box.
pub open spec fn edge(left: Seq<char>, right: Seq<char>, width: nat) -> Seq<char> {
    ACCENT@ + left + repeat("─"@, width) + right + RESET@
}

/// The upper or lower edge of a box.
pub fn box_edge(left: &str, right: &str, width: usize) -> (r: String)
    ensures
        r@ == edge(left@, right@, width as nat),
{
    let line = repeated("─", width);
    cat5(ACCENT, left, line.as_str(), right, RESET)
}

/// The input box: its line, and whether an empty line was given up once already.
#[derive(Debug)]
pub struct BoxedInput {
    pub state: InputState,
    pub ctrl_c_on_empty: bool,
}

/// What a key press leads to.
#[derive(Debug)]
pub enum BoxStep {
    /// The line is drawn again.
    Redraw,
    Submit(String),
    Exit,
}

/// What a key does to the line, but for those that look at the history.
pub open spec fn pressed(v: InputView, key: KeyPress) -> InputView {
    match key.code {
        Key::Backspace => rubbed_out(v),
        Key::Delete => deleted(v),
        Key::Left => InputView {
            cursor: if v.cursor > 0 {
                v.cursor - 1
            } else {
                0
            },
            ..v
        },
        Key::Right => InputView {
            cursor: if v.cursor < v.text.len() {
                v.cursor + 1
            } else {
                v.cursor
            },
            ..v
        },
        Key::Home => InputView { cursor: 0, ..v },
        Key::End => InputView { cursor: v.text.len() as int, ..v },
        Key::Char(c) => if key.control {
            if c == 'u' || c == 'c' && v.text.len() > 0 {
                cleared(v)
            } else {
                v
            }
        } else if key.alt {
            v
        } else {
            inserted(v, c)
        },
        _ => v,
    }
}

/// Whether an empty line counts as given up once after a key.
pub open spec fn given_up(before: bool, empty: bool, key: KeyPress) -> bool {
    match key.code {
        Key::Char(c) => if key.control && c == 'c' {
            empty
        } else if key.control && c == 'u' {
            false
        } else if !key.control && !key.alt {
            false
        } else {
            before
        },
        _ => before,
    }
}

/// Whether a key ends the session: giving an empty line up for the second time, or the end of
/// input.
pub open spec fn leaves(before: bool, empty: bool, key: KeyPress) -> bool {
    match key.code {
        Key::Char(c) => key.control && (c == 'd' || c == 'c' && empty && before),
        _ => false,
    }
}

/// The text of the line inside the box, behind the hint that one may leave where that is so.
pub open spec fn content_line(v: InputView, given_up_once: bool) -> Seq<char> {
    CLEAR_LINE@ + ACCENT@ + "│"@ + RESET@ + " › "@ + ACCENT@ + RESET@ + v.visible() + (
    if given_up_once {
        styled(DIM@, "  (再按一次 Ctrl+C 退出)"@)
    } else {
        Seq::empty()
    }) + to_col(4 + v.column() + 1)
}

impl BoxedInput {
    /// The line can be edited, and the box is no wider than a box is.
    pub open spec fn well_formed(&self) -> bool {
        self.state.well_formed() && self.state.at().width <= 100
    }

    /// An empty box.
    pub fn new(width: usize) -> (r: BoxedInput)
        requires
            width <= 100,
        ensures
            r.well_formed(),
            r.state.at() == (InputView {
                text: Seq::empty(),
                cursor: 0,
                scroll: 0,
                width: if width >= 4 {
                    width as nat
                } else {
                    4
                },
            }),
            !r.ctrl_c_on_empty,
    {
        BoxedInput { state: InputState::new(width), ctrl_c_on_empty: false }
    }

    /// Takes a key press.
    pub fn press(&mut self, history: &mut InputHistory, key: KeyPress) -> (r: BoxStep)
        requires
            old(self).well_formed(),
            old(history).at().well_formed(),
        ensures
            final(self).well_formed(),
            final(history).at().well_formed(),
            match r {
                BoxStep::Submit(t) => key.code is Enter && t@ == old(self).state.at().text,
                BoxStep::Exit => leaves(
                    old(self).ctrl_c_on_empty,
                    old(self).state.at().text.len() == 0,
                    key,
                ),
                BoxStep::Redraw => !(key.code is Enter) && !leaves(
                    old(self).ctrl_c_on_empty,
                    old(self).state.at().text.len() == 0,
                    key,
                ),
            },
            final(self).ctrl_c_on_empty == given_up(
                old(self).ctrl_c_on_empty,
                old(self).state.at().text.len() == 0,
                key,
            ),
            match key.code {
                Key::Up => {
                    let (found, h) = back(old(history).at(), old(self).state.at().text);
                    &&& final(history).at() == h
                    &&& final(self).state.at() == (match found {
                        Some(s) => replaced_by(old(self).state.at(), s),
                        None => old(self).state.at(),
                    })
                },
                Key::Down => {
                    let (found, h) = forward(old(history).at());
                    &&& final(history).at() == h
                    &&& final(self).state.at() == (match found {
                        Some(s) => replaced_by(old(self).state.at(), s),
                        None => old(self).state.at(),
                    })
                },
                _ => {
                    &&& final(history).at() == old(history).at()
                    &&& final(self).state.at() == pressed(old(self).state.at(), key)
                },
            },
    {
        match key.code {
            Key::Enter => {
                return BoxStep::Submit(self.state.text());
            },
            Key::Char(c) => if key.control {
                if c == 'c' {
                    if self.state.is_empty() {
                        if self.ctrl_c_on_empty {
                            return BoxStep::Exit;
                        }
                        self.ctrl_c_on_empty = true;
                    } else {
                        self.state.clear();
                        self.ctrl_c_on_empty = false;
                    }
                } else if c == 'd' {
                    return BoxStep::Exit;
                } else if c == 'u' {
                    self.state.clear();
                    self.ctrl_c_on_empty = false;
                }
            } else if !key.alt {
                self.state.insert(c);
                self.ctrl_c_on_empty = false;
            },
            Key::Backspace => self.state.backspace(),
            Key::Delete => self.state.delete(),
            Key::Left => self.state.left(),
            Key::Right => self.state.right(),
            Key::Home => self.state.home(),
            Key::End => self.state.end(),
            Key::Up => {
                let current = self.state.text();
                if let Some(s) = history.prev(current.as_str()) {
                    self.state.set_text(s.as_str());
                }
            },
            Key::Down => {
                if let Some(s) = history.next() {
                    self.state.set_text(s.as_str());
                }
            },
            _ => {},
        }
        BoxStep::Redraw
    }

    /// The text that draws the line inside the box again and puts the cursor where it belongs.
    pub fn redraw(&mut self) -> (r: String)
        requires
            old(self).well_formed(),
        ensures
            final(self).well_formed(),
            final(self).ctrl_c_on_empty == old(self).ctrl_c_on_empty,
            final(self).state.at() == (InputView {
                scroll: old(self).state.at().shown_from(),
                ..old(self).state.at()
            }),
            r@ == content_line(old(self).state.at(), old(self).ctrl_c_on_empty),
    {
        let (visible, col) = self.state.viewport();
        let hint = if self.ctrl_c_on_empty {
            dim("  (再按一次 Ctrl+C 退出)")
        } else {
            String::new()
        };
        let mut r = cat5(CLEAR_LINE, ACCENT, "│", RESET, " › ");
        r.push_str(ACCENT);
        r.push_str(RESET);
        r.push_str(visible.as_str());
        r.push_str(hint.as_str());
        r.push_str(goto_col(4 + col + 1).as_str());
        r
    }
}

/// The text that takes a submitted input's place.
pub fn receipt(text: &str) -> (r: String)
    ensures
        r@ == CLEAR_LINE@ + DIM@ + "› "@ + text@ + RESET@,
{
    cat5(CLEAR_LINE, DIM, "› ", text, RESET)
}

/// A line that is not empty is never left by giving it up, only emptied; an empty one is left when
/// it is given up a second time.
pub proof fn law_leaving_takes_two(v: InputView, key: KeyPress, before: bool)
    requires
        key.code == Key::Char('c'),
        key.control,
    ensures
        v.text.len() > 0 ==> !leaves(before, false, key) && pressed(v, key) == cleared(v),
        v.text.len() == 0 ==> leaves(true, true, key) && !leaves(false, true, key) && given_up(
            false,
            true,
            key,
        ),
{
}


/// A key changes the line where the cursor stands: a letter goes in before it, the two keys that take
/// out take what stands before it and what stands behind it, and the others move the cursor by one
/// place or to an end. What stands elsewhere stays.
pub proof fn law_keys_edit_the_line(v: InputView, key: KeyPress)
    requires
        0 <= v.cursor <= v.text.len(),
    ensures
        ({
            let w = pressed(v, key);
            let before = v.text.take(v.cursor);
            let behind = v.text.skip(v.cursor);
            &&& w.width == v.width
            &&& key.code is Char && !key.control && !key.alt ==> w.text == before.push(key.code->Char_0)
                + behind && w.cursor == v.cursor + 1
            &&& key.code == Key::Char('u') && key.control ==> w.text.len() == 0 && w.cursor == 0
            &&& key.code is Backspace && before.len() > 0 ==> w.text == before.drop_last() + behind
                && w.cursor == v.cursor - 1
            &&& key.code is Delete && behind.len() > 0 ==> w.text == before + behind.skip(1)
                && w.cursor == v.cursor
            &&& key.code is Backspace && before.len() == 0 ==> w == v
            &&& key.code is Delete && behind.len() == 0 ==> w == v
            &&& key.code is Left || key.code is Right || key.code is Home || key.code is End ==> w.text
                == v.text
            &&& key.code is Left && before.len() > 0 ==> w.cursor == v.cursor - 1
            &&& key.code is Left && before.len() == 0 ==> w.cursor == 0
            &&& key.code is Right && behind.len() > 0 ==> w.cursor == v.cursor + 1
            &&& key.code is Right && behind.len() == 0 ==> w.cursor == v.cursor
            &&& key.code is Home ==> w.cursor == 0
            &&& key.code is End ==> w.cursor == v.text.len()
            &&& key.code is Up || key.code is Down || key.code is Enter || key.code is Tab || key.code
                is Esc || key.code is Other || key.code is PageUp || key.code is PageDown ==> w == v
        }),
{
    let w = pressed(v, key);
    let before = v.text.take(v.cursor);
    let behind = v.text.skip(v.cursor);
    match key.code {
        Key::Char(c) => {
            if !key.control && !key.alt {
                assert(w.text =~= before.push(c) + behind);
            }
        },
        Key::Backspace => {
            if v.cursor > 0 {
                assert(w.text =~= before.drop_last() + behind);
            }
        },
        Key::Delete => {
            if v.cursor < v.text.len() {
                assert(w.text =~= before + behind.skip(1));
            }
        },
        _ => {},
    }
}

proof fn lemma_fits(s: Seq<char>, width: nat, n: int)
    requires
        0 <= n <= s.len(),
        total_cols(s.take(n)) <= width,
    ensures
        fits_exactly(s, width, fit(s, width)),
    decreases s.len() - n,
{
    if n < s.len() && total_cols(s.take(n + 1)) <= width {
        lemma_fits(s, width, n + 1);
    } else {
        assert(fits_exactly(s, width, n));
    }
}

/// What is seen is a part of the line that holds the cursor's place, no wider than the box, and none
/// that begins there and is longer would fit; the cursor stands as many columns in as the characters
/// before it take.
pub proof fn law_window_shows_the_cursor(v: InputView)
    requires
        0 <= v.cursor <= v.text.len(),
        0 <= v.scroll,
    ensures
        exists|a: int, b: int|
            {
                &&& 0 <= a <= v.cursor <= b <= v.text.len()
                &&& v.visible() == #[trigger] v.text.subrange(a, b)
                &&& total_cols(v.text.subrange(a, b)) <= v.width
                &&& b < v.text.len() ==> total_cols(v.text.subrange(a, b + 1)) > v.width
                &&& v.column() == total_cols(v.text.subrange(a, v.cursor))
            },
{
    let a = v.shown_from();
    law_window_follows(v);
    let from = if v.scroll <= v.cursor {
        v.scroll
    } else {
        v.cursor
    };
    lemma_window(v.text, v.cursor, v.width, from);
    let rest = v.text.skip(a);
    assert(rest.take(0) =~= Seq::empty());
    lemma_fits(rest, v.width, 0);
    let n = fit(rest, v.width);
    let b = a + n;
    assert(rest.take(n) =~= v.text.subrange(a, b));
    if b < v.text.len() {
        assert(rest.take(n + 1) =~= v.text.subrange(a, b + 1));
    }
    assert(v.visible() == v.text.subrange(a, b));
}

/// A text takes the columns of its characters, each as many as it is wide; one without a width takes
/// one.
pub proof fn law_columns_add(a: Seq<char>, b: Seq<char>, c: char)
    ensures
        total_cols(a + b) == total_cols(a) + total_cols(b),
        total_cols(seq![c]) == match char_cols(c) {
            Some(n) => n as nat,
            None => 1nat,
        },
        total_cols(Seq::empty()) == 0,
    decreases b.len(),
{
    assert(seq![c].drop_last() =~= Seq::empty());
    reveal_with_fuel(total_cols, 2);
    if b.len() == 0 {
        assert(a + b =~= a);
    } else {
        law_columns_add(a, b.drop_last(), c);
        assert((a + b).drop_last() =~= a + b.drop_last());
        assert((a + b).last() == b.last());
    }
}

/// A line that is not blank is remembered as the latest, whatever was shown; a blank one is not.
pub proof fn law_lines_are_remembered(h: HistoryView, s: Seq<char>, current: Seq<char>)
    ensures
        !all_white(s) ==> remembered(h, s).items == h.items + seq![s] && back(
            remembered(h, s),
            current,
        ).0 == Some(s),
        all_white(s) ==> remembered(h, s).items == h.items,
        forward(remembered(h, s)).0 is None,
{
    assert(h.items.push(s) =~= h.items + seq![s]);
}

/// What going back `n` times leads to.
pub open spec fn gone_back(h: HistoryView, current: Seq<char>, n: nat) -> (
    Option<Seq<char>>,
    HistoryView,
)
    decreases n,
{
    if n == 0 {
        (Some(current), h)
    } else {
        back(gone_back(h, current, (n - 1) as nat).1, current)
    }
}

/// Going back `n` times shows the line that is `n`th from the end, and going back beyond the first
/// shows nothing new; what is remembered stays.
pub proof fn law_history_goes_back_line_by_line(h: HistoryView, current: Seq<char>, n: nat)
    requires
        h.idx is None,
    ensures
        gone_back(h, current, n).1.items == h.items,
        0 < n <= h.items.len() ==> gone_back(h, current, n).0 == Some(h.items[h.items.len() - n])
            && gone_back(h, current, n).1.idx == Some(h.items.len() - n) && gone_back(
            h,
            current,
            n,
        ).1.draft == Some(current),
        n > h.items.len() ==> gone_back(h, current, n).0 is None,
        n > h.items.len() > 0 ==> gone_back(h, current, n).1.idx == Some(0int),
        h.items.len() == 0 ==> gone_back(h, current, n).1 == h,
    decreases n,
{
    if n > 0 {
        law_history_goes_back_line_by_line(h, current, (n - 1) as nat);
    }
}


/// The box is as wide as the terminal without two columns, and no wider than a hundred.
pub proof fn law_box_is_bounded(term: int)
    requires
        term >= 2,
    ensures
        term <= 102 ==> box_cols(term) == term - 2,
        term > 102 ==> box_cols(term) == 100,
{
}

} // verus!
