//! Styled text: lines of spans.
use vstd::prelude::*;
use vstd::string::*;
use crate::text::{lines, text_lines, views};
use crate::ui::theme::Color;

verus! {

/// How text looks; what is not set is the terminal's.
#[derive(Debug, Clone, Copy, PartialEq, Eq, Structural)]
pub struct Style {
    pub fg: Option<Color>,
    pub bg: Option<Color>,
    pub bold: bool,
    pub italic: bool,
}

/// The terminal's own look.
pub open spec fn plain_style() -> Style {
    Style { fg: None, bg: None, bold: false, italic: false }
}

/// A colour.
pub open spec fn fg_style(c: Color) -> Style {
    Style { fg: Some(c), bg: None, bold: false, italic: false }
}

/// A colour on another.
pub open spec fn fg_bg_style(c: Color, b: Color) -> Style {
    Style { fg: Some(c), bg: Some(b), bold: false, italic: false }
}

impl Style {
    /// The terminal's own look.
    pub fn plain() -> (r: Style)
        ensures
            r == plain_style(),
    {
        Style { fg: None, bg: None, bold: false, italic: false }
    }

    /// A colour.
    pub fn fg(c: Color) -> (r: Style)
        ensures
            r == fg_style(c),
    {
        Style { fg: Some(c), bg: None, bold: false, italic: false }
    }

    /// A colour on another.
    pub fn fg_bg(c: Color, b: Color) -> (r: Style)
        ensures
            r == fg_bg_style(c, b),
    {
        Style { fg: Some(c), bg: Some(b), bold: false, italic: false }
    }
}

/// Text in one style.
#[derive(Debug, PartialEq)]
pub struct Span {
    pub content: String,
    pub style: Style,
}

/// What a span holds.
#[verifier::ext_equal]
pub struct SpanView {
    pub content: Seq<char>,
    pub style: Style,
}

impl View for Span {
    type V = SpanView;

    open spec fn view(&self) -> SpanView {
        SpanView { content: self.content@, style: self.style }
    }
}

impl Clone for Span {
    fn clone(&self) -> (r: Self)
        ensures
            r@ == self@,
    {
        Span { content: self.content.clone(), style: self.style }
    }
}

/// Text as the terminal has it.
pub open spec fn raw_span(s: Seq<char>) -> SpanView {
    SpanView { content: s, style: plain_style() }
}

/// Text in a style.
pub open spec fn styled_span(s: Seq<char>, style: Style) -> SpanView {
    SpanView { content: s, style }
}

impl Span {
    /// Text as the terminal has it.
    pub fn raw(s: &str) -> (r: Span)
        ensures
            r@ == raw_span(s@),
    {
        Span { content: s.to_owned(), style: Style::plain() }
    }

    /// Text in a style.
    pub fn styled(s: &str, style: Style) -> (r: Span)
        ensures
            r@ == styled_span(s@, style),
    {
        Span { content: s.to_owned(), style }
    }
}

/// A line.
#[derive(Debug, PartialEq)]
pub struct Line {
    pub spans: Vec<Span>,
}

/// The views of spans.
pub open spec fn span_views(v: Seq<Span>) -> Seq<SpanView> {
    Seq::new(v.len(), |i: int| v[i]@)
}

impl View for Line {
    type V = Seq<SpanView>;

    open spec fn view(&self) -> Seq<SpanView> {
        span_views(self.spans@)
    }
}

/// The views of lines.
pub open spec fn line_views(v: Seq<Line>) -> Seq<Seq<SpanView>> {
    Seq::new(v.len(), |i: int| v[i]@)
}

/// The text of spans, without their styles.
pub open spec fn text_of(spans: Seq<SpanView>) -> Seq<char>
    decreases spans.len(),
{
    if spans.len() == 0 {
        Seq::empty()
    } else {
        text_of(spans.drop_last()) + spans.last().content
    }
}

/// A line of plain text: a span for each line that the text has.
pub open spec fn raw_line(s: Seq<char>) -> Seq<SpanView> {
    lines(s).map_values(|l: Seq<char>| raw_span(l))
}

/// Adds a span to a list.
pub fn push_span(v: &mut Vec<Span>, s: Span)
    ensures
        span_views(final(v)@) == span_views(old(v)@).push(s@),
{
    v.push(s);
    assert(span_views(v@) =~= span_views(old(v)@).push(s@));
}

/// Adds spans to a list.
pub fn push_spans(v: &mut Vec<Span>, more: Vec<Span>)
    ensures
        span_views(final(v)@) == span_views(old(v)@) + span_views(more@),
{
    let mut more = more;
    let ghost added = more@;
    v.append(&mut more);
    assert(span_views(v@) =~= span_views(old(v)@) + span_views(added));
}

/// Adds a line to a list.
pub fn push_line(v: &mut Vec<Line>, l: Line)
    ensures
        line_views(final(v)@) == line_views(old(v)@).push(l@),
{
    v.push(l);
    assert(line_views(v@) =~= line_views(old(v)@).push(l@));
}

/// A copy of spans.
pub fn clone_spans(v: &Vec<Span>) -> (r: Vec<Span>)
    ensures
        span_views(r@) == span_views(v@),
{
    let mut r: Vec<Span> = Vec::new();
    let mut i: usize = 0;
    while i < v.len()
        invariant
            i <= v@.len(),
            r@.len() == i,
            forall|k: int| 0 <= k < i ==> (#[trigger] r@[k])@ == v@[k]@,
        decreases v@.len() - i,
    {
        r.push(v[i].clone());
        i = i + 1;
    }
    assert(span_views(r@) =~= span_views(v@));
    r
}

impl Clone for Line {
    fn clone(&self) -> (r: Self)
        ensures
            r@ == self@,
    {
        Line { spans: clone_spans(&self.spans) }
    }
}

impl Line {
    /// A line without text.
    pub fn empty() -> (r: Line)
        ensures
            r@ == Seq::<SpanView>::empty(),
    {
        let r = Line { spans: Vec::new() };
        assert(r@ =~= Seq::empty());
        r
    }

    /// A line of one span.
    pub fn of(s: Span) -> (r: Line)
        ensures
            r@ == seq![s@],
    {
        let mut spans: Vec<Span> = Vec::new();
        spans.push(s);
        let r = Line { spans };
        assert(r@ =~= seq![s@]);
        r
    }

    /// A line of plain text.
    pub fn raw(s: &str) -> (r: Line)
        ensures
            r@ == raw_line(s@),
    {
        let ls = text_lines(s);
        let ghost all = views(ls@);
        let mut spans: Vec<Span> = Vec::new();
        let mut i: usize = 0;
        assert(span_views(spans@) =~= Seq::empty());
        while i < ls.len()
            invariant
                i <= ls@.len(),
                all == views(ls@),
                spans@.len() == i,
                forall|k: int| 0 <= k < i ==> (#[trigger] spans@[k])@ == raw_span(all[k]),
            decreases ls@.len() - i,
        {
            spans.push(Span::raw(ls[i].as_str()));
            i = i + 1;
        }
        let r = Line { spans };
        assert(r@ =~= raw_line(s@));
        r
    }

    /// The text of the line, without its styles.
    pub fn text(&self) -> (r: String)
        ensures
            r@ == text_of(self@),
    {
        let ghost all = self@;
        let mut r = String::new();
        let mut i: usize = 0;
        assert(all.take(0) =~= Seq::empty());
        while i < self.spans.len()
            invariant
                i <= self.spans@.len(),
                all == self@,
                r@ == text_of(all.take(i as int)),
            decreases self.spans@.len() - i,
        {
            assert(all.take(i + 1).drop_last() =~= all.take(i as int));
            assert(all.take(i + 1).last() == self.spans@[i as int]@);
            r.push_str(self.spans[i].content.as_str());
            i = i + 1;
        }
        assert(all.take(i as int) =~= all);
        r
    }
}

/// The text of two runs of spans is their texts in a row.
pub proof fn lemma_text_add(a: Seq<SpanView>, b: Seq<SpanView>)
    ensures
        text_of(a + b) == text_of(a) + text_of(b),
    decreases b.len(),
{
    if b.len() == 0 {
        assert(a + b =~= a);
        assert(text_of(a) + Seq::<char>::empty() =~= text_of(a));
    } else {
        lemma_text_add(a, b.drop_last());
        assert((a + b).drop_last() =~= a + b.drop_last());
        assert(text_of(a) + text_of(b.drop_last()) + b.last().content =~= text_of(a) + (text_of(
            b.drop_last(),
        ) + b.last().content));
    }
}

} // verus!
