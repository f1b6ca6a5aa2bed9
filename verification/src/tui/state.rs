//! What the full-screen interface shows, and what events and keys do to it.
use vstd::prelude::*;
use vstd::string::*;
use crate::config::{Config, ConfigView};
use crate::security::{PendingAction, PendingView};
use crate::text::{
    all_white, at_most, begins_with, blank, cat2, cat3, cat4, char_count, dec, dec_text,
    first_chars, from_chars, last_line, lemma_split_add, lemma_split_nonempty, lemma_split_pieces,
    lemma_split_whole, lines, opt_text, same, split, split_char, tail_line, to_chars, trim, trimmed,
    views,
};
use crate::tools::{str_views, todo_views, Todo, TodoView};
use crate::tui::event::{UiEvent, UiEventView};
use crate::tui::line::{
    fg_style, line_views, push_line, push_span, raw_line, raw_span, styled_span, text_of, Line,
    Span, SpanView, Style,
};
use crate::tui::markdown::{
    at_start, can_render, rendered, table_fits, table_lines, MarkdownState, MdView,
};
use crate::ui::key::{Key, KeyPress};
use crate::ui::settings::{
    command_names, field_display, field_text, file_in_the_way, known_commands, moved, planned,
    saved_note, showing, EditPlan, PageAction, PageState, SettingsView, Shown,
};
use crate::ui::settings_file::file_view;
use crate::ui::theme::C_ACCENT;
use crate::ui::width::held;

verus! {

/// What the interface shows.
#[derive(Debug)]
pub struct AppState {
    pub transcript: Vec<Line>,
    pub todos: Vec<Todo>,
    pub input: String,
    pub status: String,
    pub busy: bool,
    pub usage: Option<String>,
    /// What the user is asked, where anything waits for an answer.
    pub pending_confirm: Option<PendingAction>,
    pub quit: bool,
    /// Whether the last line of the transcript is one that text is still added to.
    pub text_open: bool,
    /// The text of that line.
    pub text_buf: String,
    pub md: MarkdownState,
    /// How many rows the transcript is scrolled back.
    pub scroll: usize,
    /// The cursor, in characters from the start of the input.
    pub cursor: usize,
    /// The settings, where they are open.
    pub settings: Option<(SettingsView, PageState)>,
    /// How many rows the question is scrolled.
    pub confirm_scroll: usize,
    /// How many tokens the context holds, of how many it may.
    pub ctx_usage: Option<(u64, u64)>,
    /// The command that is chosen among those the input may become.
    pub completion_sel: usize,
    /// Whether the input is that of a field of the settings.
    pub settings_edit: bool,
    /// The input that waits meanwhile.
    pub input_stash: Option<String>,
    /// What came of the last edit, and whether it was saved.
    pub settings_msg: Option<(String, bool)>,
    /// A configuration that is to take effect.
    pub settings_commit: Option<Config>,
}

/// What [`AppState`] holds.
#[verifier::ext_equal]
pub struct AppView {
    pub transcript: Seq<Seq<SpanView>>,
    pub todos: Seq<TodoView>,
    pub input: Seq<char>,
    pub status: Seq<char>,
    pub busy: bool,
    pub usage: Option<Seq<char>>,
    pub pending_confirm: Option<PendingView>,
    pub quit: bool,
    pub text_open: bool,
    pub text_buf: Seq<char>,
    pub md: MdView,
    pub scroll: usize,
    pub cursor: usize,
    pub settings: Option<(Shown, PageState)>,
    pub confirm_scroll: usize,
    pub ctx_usage: Option<(u64, u64)>,
    pub completion_sel: usize,
    pub settings_edit: bool,
    pub input_stash: Option<Seq<char>>,
    pub settings_msg: Option<(Seq<char>, bool)>,
    pub settings_commit: Option<ConfigView>,
}

impl View for AppState {
    type V = AppView;

    open spec fn view(&self) -> AppView {
        AppView {
            transcript: line_views(self.transcript@),
            todos: todo_views(self.todos@),
            input: self.input@,
            status: self.status@,
            busy: self.busy,
            usage: opt_text(self.usage),
            pending_confirm: match self.pending_confirm {
                Some(a) => Some(a@),
                None => None,
            },
            quit: self.quit,
            text_open: self.text_open,
            text_buf: self.text_buf@,
            md: self.md.at(),
            scroll: self.scroll,
            cursor: self.cursor,
            settings: match self.settings {
                Some((v, p)) => Some((v@, p)),
                None => None,
            },
            confirm_scroll: self.confirm_scroll,
            ctx_usage: self.ctx_usage,
            completion_sel: self.completion_sel,
            settings_edit: self.settings_edit,
            input_stash: opt_text(self.input_stash),
            settings_msg: match self.settings_msg {
                Some((m, ok)) => Some((m@, ok)),
                None => None,
            },
            settings_commit: match self.settings_commit {
                Some(c) => Some(c@),
                None => None,
            },
        }
    }
}

impl AppView {
    /// The cursor stands in the input, and the chosen command is one of those there are.
    pub open spec fn well_formed(self) -> bool {
        self.cursor <= self.input.len() && self.completion_sel < 3
    }
}

/// The screen before anything has happened.
pub open spec fn at_first() -> AppView {
    AppView {
        transcript: Seq::empty(),
        todos: Seq::empty(),
        input: Seq::empty(),
        status: "就绪"@,
        busy: false,
        usage: None,
        pending_confirm: None,
        quit: false,
        text_open: false,
        text_buf: Seq::empty(),
        md: at_start(),
        scroll: 0,
        cursor: 0,
        settings: None,
        confirm_scroll: 0,
        ctx_usage: None,
        completion_sel: 0,
        settings_edit: false,
        input_stash: None,
        settings_msg: None,
        settings_commit: None,
    }
}

// ---- text that streams in ----

/// A transcript whose last line says nothing; an empty one stays empty.
pub open spec fn last_blanked(t: Seq<Seq<SpanView>>) -> Seq<Seq<SpanView>> {
    if t.len() == 0 {
        t
    } else {
        t.drop_last().push(Seq::empty())
    }
}

/// A transcript without its last line; an empty one stays empty.
pub open spec fn last_dropped(t: Seq<Seq<SpanView>>) -> Seq<Seq<SpanView>> {
    if t.len() == 0 {
        t
    } else {
        t.drop_last()
    }
}

/// A transcript with lines in the place of its last one; an empty one gets them all.
pub open spec fn last_replaced(t: Seq<Seq<SpanView>>, outs: Seq<Seq<SpanView>>) -> Seq<
    Seq<SpanView>,
> {
    last_dropped(t) + outs
}

/// A transcript with a table in the place of its last line; where there is no line, the first of
/// the table's has no place either.
pub open spec fn table_placed(t: Seq<Seq<SpanView>>, outs: Seq<Seq<SpanView>>) -> Seq<
    Seq<SpanView>,
> {
    if t.len() == 0 {
        outs.skip(1)
    } else {
        t.drop_last() + outs
    }
}

/// Whether closing the open line takes its place away: it is a row of a table, which is kept back.
pub open spec fn keeps_back(v: AppView) -> bool {
    v.text_open && rendered(v.md, v.text_buf).0.len() == 0 && rendered(
        v.md,
        v.text_buf,
    ).1.table.len() > 0
}

/// The open line is complete: it is rendered.
pub open spec fn line_closed(v: AppView) -> AppView {
    if !v.text_open {
        v
    } else {
        let (outs, md) = rendered(v.md, v.text_buf);
        AppView {
            text_open: false,
            text_buf: Seq::empty(),
            md,
            transcript: if outs.len() == 0 && md.table.len() == 0 {
                last_blanked(v.transcript)
            } else if outs.len() == 0 {
                last_dropped(v.transcript)
            } else {
                last_replaced(v.transcript, outs)
            },
            ..v
        }
    }
}

/// The table that is kept back is shown: where the place of its last row was taken away, behind the
/// transcript, else in the place of its last line.
pub open spec fn table_shown(v: AppView, kept_back: bool) -> AppView {
    let outs = table_lines(v.md.table);
    AppView {
        md: MdView { table: Seq::empty(), ..v.md },
        transcript: if outs.len() == 0 {
            v.transcript
        } else if kept_back {
            v.transcript + outs
        } else {
            table_placed(v.transcript, outs)
        },
        ..v
    }
}

/// The open line is complete, and where no more text follows, so is the table.
pub open spec fn closed(v: AppView, last: bool) -> AppView {
    if last {
        table_shown(line_closed(v), keeps_back(v))
    } else {
        line_closed(v)
    }
}

/// Whether the open line can be closed: what it ends can be shown.
pub open spec fn can_close(v: AppView, last: bool) -> bool {
    &&& v.text_open ==> can_render(v.md, v.text_buf)
    &&& last ==> table_fits(line_closed(v).md.table)
}

/// A new line, to which text is added.
pub open spec fn opened(v: AppView, seg: Seq<char>) -> AppView {
    AppView {
        text_buf: seg,
        transcript: v.transcript.push(raw_line(seg)),
        text_open: true,
        ..v
    }
}

/// More text on the open line, or on a new one where none is open. Nothing opens no line.
pub open spec fn appended(v: AppView, seg: Seq<char>) -> AppView {
    if v.text_open && v.transcript.len() > 0 {
        if seg.len() == 0 {
            v
        } else {
            AppView {
                text_buf: v.text_buf + seg,
                transcript: v.transcript.drop_last().push(
                    v.transcript.last().push(raw_span(seg)),
                ),
                ..v
            }
        }
    } else if seg.len() == 0 {
        AppView { text_open: false, ..v }
    } else {
        opened(AppView { text_open: false, ..v }, seg)
    }
}

/// Text arrives, in pieces between newlines.
pub open spec fn texted(v: AppView, segs: Seq<Seq<char>>) -> AppView
    decreases segs.len(),
{
    if segs.len() == 0 {
        v
    } else if segs.len() == 1 {
        appended(v, segs[0])
    } else {
        opened(closed(texted(v, segs.drop_last()), false), segs.last())
    }
}

/// Whether text can be shown: every line that it completes can.
pub open spec fn can_text(v: AppView, segs: Seq<Seq<char>>) -> bool
    decreases segs.len(),
{
    segs.len() > 1 ==> can_text(v, segs.drop_last()) && can_close(
        texted(v, segs.drop_last()),
        false,
    )
}

// ---- events ----

/// The last line of what is being thought, as far as it is shown.
pub open spec fn snippet(text: Seq<char>) -> Seq<char> {
    first_chars(trim(last_line(text)), 40)
}

/// The note on tokens.
pub open spec fn usage_text(input: u64, output: u64, cache_hit: u64) -> Seq<char> {
    let head = "输入 "@ + dec(input as nat) + " · 输出 "@ + dec(output as nat);
    if cache_hit > 0 {
        head + " · 缓存命中 "@ + dec(cache_hit as nat)
    } else {
        head
    }
}

/// What an event does, with the to-do list as it is now.
pub open spec fn applied(v: AppView, ev: UiEventView, todos: Seq<TodoView>) -> AppView {
    match ev {
        UiEventView::TurnStarted => AppView {
            md: at_start(),
            ..closed(AppView { busy: true, status: "思考中…"@, usage: None, ..v }, true)
        },
        UiEventView::TextDelta(t) => texted(v, split(t, '\n')),
        UiEventView::ThinkingDelta(t) => AppView {
            status: if snippet(t).len() == 0 {
                "思考中…"@
            } else {
                "思考中… "@ + snippet(t)
            },
            ..v
        },
        UiEventView::ToolStart { name } => AppView { status: "执行 "@ + name + "…"@, ..v },
        UiEventView::ToolResult { tool_name, first_line, is_error } => {
            let c = closed(v, true);
            AppView {
                transcript: c.transcript.push(
                    raw_line(
                        "  "@ + (if is_error {
                            "⎿ ✗ "@
                        } else {
                            "⎿ "@
                        }) + first_line,
                    ),
                ),
                text_open: false,
                todos: if tool_name == "todo_write"@ {
                    todos
                } else {
                    c.todos
                },
                ..c
            }
        },
        UiEventView::Usage { input, output, cache_hit } => AppView {
            usage: Some(usage_text(input, output, cache_hit)),
            ..v
        },
        UiEventView::Confirm { action } => AppView {
            pending_confirm: Some(action),
            confirm_scroll: 0,
            ..v
        },
        UiEventView::OpenSettings(s) => AppView {
            settings: Some(
                (
                    s,
                    PageState { selected: 0, in_detail: false, field_sel: 0, editing: false },
                ),
            ),
            ..v
        },
        UiEventView::ContextUsage { used, limit } => AppView {
            ctx_usage: Some((used, limit)),
            ..v
        },
        UiEventView::TurnDone { ok, message } => {
            let c = closed(AppView { busy: false, ..v }, true);
            if ok {
                AppView { status: "就绪"@, ..c }
            } else if message.len() == 0 {
                AppView { status: "本轮已中断/失败"@, ..c }
            } else {
                AppView {
                    status: "本轮已中断/失败"@,
                    transcript: c.transcript.push(raw_line("⚠ "@ + message)),
                    text_open: false,
                    ..c
                }
            }
        },
        UiEventView::Exit => AppView { quit: true, ..v },
    }
}

/// Whether an event can be taken: what it completes can be shown.
pub open spec fn can_apply(v: AppView, ev: UiEventView) -> bool {
    match ev {
        UiEventView::TurnStarted => can_close(v, true),
        UiEventView::TextDelta(t) => can_text(v, split(t, '\n')),
        UiEventView::ToolResult { .. } => can_close(v, true),
        UiEventView::TurnDone { .. } => can_close(v, true),
        _ => true,
    }
}

/// The user's input is shown.
pub open spec fn echoed(v: AppView, text: Seq<char>) -> AppView {
    let c = closed(v, true);
    AppView {
        scroll: 0,
        transcript: c.transcript.push(
            seq![styled_span("› "@, fg_style(C_ACCENT)), raw_span(text)],
        ),
        text_open: false,
        ..c
    }
}

fn blank_last(t: &mut Vec<Line>)
    ensures
        line_views(final(t)@) == last_blanked(line_views(old(t)@)),
{
    let n: usize = t.len();
    if n > 0 {
        t.set(n - 1, Line::empty());
    }
    assert(line_views(t@) =~= last_blanked(line_views(old(t)@)));
}

fn drop_last(t: &mut Vec<Line>)
    ensures
        line_views(final(t)@) == last_dropped(line_views(old(t)@)),
{
    let _last = t.pop();
    assert(line_views(t@) =~= last_dropped(line_views(old(t)@)));
}

fn append_lines(t: &mut Vec<Line>, outs: Vec<Line>)
    ensures
        line_views(final(t)@) == line_views(old(t)@) + line_views(outs@),
{
    let mut outs = outs;
    let ghost added = outs@;
    t.append(&mut outs);
    assert(line_views(t@) =~= line_views(old(t)@) + line_views(added));
}

fn place_outputs(t: &mut Vec<Line>, outs: Vec<Line>)
    requires
        outs@.len() > 0,
    ensures
        line_views(final(t)@) == table_placed(line_views(old(t)@), line_views(outs@)),
{
    let mut outs = outs;
    let ghost all = line_views(outs@);
    if t.len() == 0 {
        let _first = outs.remove(0);
        assert(line_views(outs@) =~= all.skip(1));
        append_lines(t, outs);
        assert(line_views(t@) =~= all.skip(1));
    } else {
        drop_last(t);
        append_lines(t, outs);
    }
}

impl AppState {
    pub fn new() -> (r: AppState)
        ensures
            r@ == at_first(),
            r@.well_formed(),
    {
        let r = AppState {
            transcript: Vec::new(),
            todos: Vec::new(),
            input: String::new(),
            status: "就绪".to_owned(),
            busy: false,
            usage: None,
            pending_confirm: None,
            quit: false,
            text_open: false,
            text_buf: String::new(),
            md: MarkdownState::new(),
            scroll: 0,
            cursor: 0,
            settings: None,
            confirm_scroll: 0,
            ctx_usage: None,
            completion_sel: 0,
            settings_edit: false,
            input_stash: None,
            settings_msg: None,
            settings_commit: None,
        };
        assert(r@.transcript =~= Seq::empty());
        assert(r@.todos =~= Seq::empty());
        r
    }

    fn open_text_line(&mut self, seg: &str)
        ensures
            final(self)@ == opened(old(self)@, seg@),
    {
        self.text_buf = seg.to_owned();
        push_line(&mut self.transcript, Line::raw(seg));
        self.text_open = true;
    }

    fn append_text(&mut self, seg: &str)
        ensures
            final(self)@ == appended(old(self)@, seg@),
    {
        if self.text_open {
            let n: usize = self.transcript.len();
            assert(self@.transcript.len() == n);
            if n > 0 {
                if !seg.is_empty() {
                    self.text_buf.push_str(seg);
                    let mut last = self.transcript[n - 1].clone();
                    push_span(&mut last.spans, Span::raw(seg));
                    assert(last@ == old(self)@.transcript.last().push(raw_span(seg@)));
                    self.transcript.set(n - 1, last);
                    assert(self@.transcript =~= appended(old(self)@, seg@).transcript);
                }
                return;
            }
            self.text_open = false;
        }
        if seg.is_empty() {
            return;
        }
        self.open_text_line(seg);
    }

    fn close_open_text(&mut self, last: bool)
        requires
            can_close(old(self)@, last),
        ensures
            final(self)@ == closed(old(self)@, last),
    {
        let ghost v = self@;
        let mut kept_back = false;
        if self.text_open {
            self.text_open = false;
            let raw = self.text_buf.clone();
            self.text_buf = String::new();
            let outs = self.md.render_line(raw.as_str());
            assert(line_views(outs@).len() == outs@.len());
            if outs.len() == 0 {
                if self.md.table_is_buffering() {
                    kept_back = true;
                    drop_last(&mut self.transcript);
                } else {
                    blank_last(&mut self.transcript);
                }
            } else {
                drop_last(&mut self.transcript);
                append_lines(&mut self.transcript, outs);
            }
        }
        assert(self@ == line_closed(v));
        assert(kept_back == keeps_back(v));
        if last {
            let outs = self.md.take_table();
            assert(line_views(outs@).len() == outs@.len());
            if outs.len() > 0 {
                if kept_back {
                    append_lines(&mut self.transcript, outs);
                } else {
                    place_outputs(&mut self.transcript, outs);
                }
            }
        }
    }

    fn take_text(&mut self, text: &str)
        requires
            can_text(old(self)@, split(text@, '\n')),
        ensures
            final(self)@ == texted(old(self)@, split(text@, '\n')),
    {
        let ghost v = self@;
        let segs = split_char(text, '\n');
        let ghost all = views(segs@);
        proof {
            lemma_split_nonempty(text@, '\n');
        }
        self.append_text(segs[0].as_str());
        assert(all.take(1)[0] == segs@[0]@);
        let mut i: usize = 1;
        assert(all.take(all.len() as int) =~= all);
        while i < segs.len()
            invariant
                1 <= i <= segs@.len(),
                all == views(segs@),
                can_text(v, all),
                v == old(self)@,
                self@ == texted(v, all.take(i as int)),
            decreases segs@.len() - i,
        {
            assert(all.take(i + 1).drop_last() =~= all.take(i as int));
            assert(all.take(i + 1).last() == segs@[i as int]@);
            proof {
                lemma_can_text(v, all, i + 1);
            }
            self.close_open_text(false);
            self.open_text_line(segs[i].as_str());
            i = i + 1;
        }
        assert(all.take(i as int) =~= all);
    }

    fn begin_turn(&mut self)
        requires
            can_close(old(self)@, true),
        ensures
            forall|todos: Seq<TodoView>|
                final(self)@ == #[trigger] applied(old(self)@, UiEventView::TurnStarted, todos),
    {
        self.busy = true;
        self.status = "思考中…".to_owned();
        self.usage = None;
        self.close_open_text(true);
        self.md.reset();
    }

    fn show_thinking(&mut self, text: &str)
        ensures
            forall|todos: Seq<TodoView>|
                final(self)@ == #[trigger] applied(
                    old(self)@,
                    UiEventView::ThinkingDelta(text@),
                    todos,
                ),
    {
        let s = at_most(trimmed(tail_line(text).as_str()).as_str(), 40);
        self.status = if s.as_str().is_empty() {
            "思考中…".to_owned()
        } else {
            cat2("思考中… ", s.as_str())
        };
    }

    fn show_result(&mut self, tool_name: &str, first_line: &str, is_error: bool, todos: &Vec<Todo>)
        requires
            can_close(old(self)@, true),
        ensures
            final(self)@ == applied(
                old(self)@,
                UiEventView::ToolResult {
                    tool_name: tool_name@,
                    first_line: first_line@,
                    is_error,
                },
                todo_views(todos@),
            ),
    {
        self.close_open_text(true);
        let mark = if is_error {
            "⎿ ✗ "
        } else {
            "⎿ "
        };
        let line = cat3("  ", mark, first_line);
        push_line(&mut self.transcript, Line::raw(line.as_str()));
        self.text_open = false;
        if same(tool_name, "todo_write") {
            self.todos = clone_todos(todos);
        }
    }

    fn show_usage(&mut self, input: u64, output: u64, cache_hit: u64)
        ensures
            final(self)@ == (AppView {
                usage: Some(usage_text(input, output, cache_hit)),
                ..old(self)@
            }),
    {
        let a = dec_text(input);
        let b = dec_text(output);
        let mut s = cat4("输入 ", a.as_str(), " · 输出 ", b.as_str());
        if cache_hit > 0 {
            s.push_str(" · 缓存命中 ");
            s.push_str(dec_text(cache_hit).as_str());
        }
        self.usage = Some(s);
    }

    fn end_turn(&mut self, ok: bool, message: &str)
        requires
            can_close(old(self)@, true),
        ensures
            forall|todos: Seq<TodoView>|
                final(self)@ == #[trigger] applied(
                    old(self)@,
                    UiEventView::TurnDone { ok, message: message@ },
                    todos,
                ),
    {
        self.busy = false;
        self.close_open_text(true);
        if ok {
            self.status = "就绪".to_owned();
        } else {
            self.status = "本轮已中断/失败".to_owned();
            if !message.is_empty() {
                let line = cat2("⚠ ", message);
                push_line(&mut self.transcript, Line::raw(line.as_str()));
                self.text_open = false;
            }
        }
    }

    /// Takes an event, with the to-do list as it is now; see [`applied`].
    pub fn apply(&mut self, ev: UiEvent, todos: &Vec<Todo>)
        requires
            can_apply(old(self)@, ev@),
        ensures
            final(self)@ == applied(old(self)@, ev@, todo_views(todos@)),
    {
        match ev {
            UiEvent::TurnStarted => self.begin_turn(),
            UiEvent::TextDelta(t) => self.take_text(t.as_str()),
            UiEvent::ThinkingDelta(t) => self.show_thinking(t.as_str()),
            UiEvent::ToolStart { name } => {
                self.status = cat3("执行 ", name.as_str(), "…");
            },
            UiEvent::ToolResult { tool_name, first_line, is_error } => self.show_result(
                tool_name.as_str(),
                first_line.as_str(),
                is_error,
                todos,
            ),
            UiEvent::Usage { input, output, cache_hit } => self.show_usage(
                input,
                output,
                cache_hit,
            ),
            UiEvent::Confirm { action } => {
                self.pending_confirm = Some(action);
                self.confirm_scroll = 0;
            },
            UiEvent::OpenSettings(view) => {
                self.settings = Some((view, PageState::new()));
            },
            UiEvent::ContextUsage { used, limit } => {
                self.ctx_usage = Some((used, limit));
            },
            UiEvent::TurnDone { ok, message } => self.end_turn(ok, message.as_str()),
            UiEvent::Exit => {
                self.quit = true;
            },
        }
    }

    /// Shows what the user entered; see [`echoed`].
    pub fn push_user_input(&mut self, text: &str)
        requires
            can_close(old(self)@, true),
        ensures
            final(self)@ == echoed(old(self)@, text@),
    {
        self.close_open_text(true);
        self.scroll = 0;
        let mut line = Line::empty();
        push_span(&mut line.spans, Span::styled("› ", Style::fg(C_ACCENT)));
        push_span(&mut line.spans, Span::raw(text));
        assert(line@ =~= seq![styled_span("› "@, fg_style(C_ACCENT)), raw_span(text@)]);
        push_line(&mut self.transcript, line);
        self.text_open = false;
    }

    /// Whether the open line can be closed; see [`can_close`].
    pub fn closes(&self, last: bool) -> (r: bool)
        ensures
            r == can_close(self@, last),
    {
        if !self.text_open {
            return !last || self.md.table_fits();
        }
        if !self.md.renders(self.text_buf.as_str()) {
            return false;
        }
        if !last {
            return true;
        }
        let mut md = self.md.copy();
        let _outs = md.render_line(self.text_buf.as_str());
        md.table_fits()
    }

    /// [`AppState::push_user_input`] where the open line can be closed; says whether it could.
    pub fn try_push_user_input(&mut self, text: &str) -> (r: bool)
        ensures
            r == can_close(old(self)@, true),
            final(self)@ == (if r {
                echoed(old(self)@, text@)
            } else {
                old(self)@
            }),
    {
        if self.closes(true) {
            self.push_user_input(text);
            true
        } else {
            false
        }
    }
}

fn clone_todos(v: &Vec<Todo>) -> (r: Vec<Todo>)
    ensures
        todo_views(r@) == todo_views(v@),
{
    let mut r: Vec<Todo> = Vec::new();
    let mut i: usize = 0;
    while i < v.len()
        invariant
            i <= v@.len(),
            r@.len() == i,
            forall|k: int| 0 <= k < i ==> #[trigger] r@[k] == v@[k],
        decreases v@.len() - i,
    {
        r.push(v[i].clone());
        i = i + 1;
    }
    assert(r@ =~= v@);
    r
}

proof fn lemma_can_text(v: AppView, segs: Seq<Seq<char>>, n: int)
    requires
        1 <= n <= segs.len(),
        can_text(v, segs),
    ensures
        can_text(v, segs.take(n)),
    decreases segs.len() - n,
{
    if n < segs.len() {
        lemma_can_text(v, segs, n + 1);
        assert(segs.take(n + 1).drop_last() =~= segs.take(n));
    } else {
        assert(segs.take(n) =~= segs);
    }
}

proof fn lemma_texted_keeps(v: AppView, segs: Seq<Seq<char>>)
    ensures
        texted(v, segs).cursor == v.cursor,
        texted(v, segs).input == v.input,
        texted(v, segs).completion_sel == v.completion_sel,
    decreases segs.len(),
{
    if segs.len() > 1 {
        lemma_texted_keeps(v, segs.drop_last());
    }
}

impl AppState {
    /// Whether text can be shown; see [`can_text`].
    fn takes_text(&self, text: &str) -> (r: bool)
        ensures
            r == can_text(self@, split(text@, '\n')),
    {
        let ghost v = self@;
        let segs = split_char(text, '\n');
        let ghost all = views(segs@);
        proof {
            lemma_split_nonempty(text@, '\n');
        }
        let first = segs[0].as_str();
        let mut open = true;
        let mut buf = first.to_owned();
        if self.text_open && self.transcript.len() > 0 {
            buf = cat2(self.text_buf.as_str(), first);
            if first.is_empty() {
                assert(buf@ =~= self.text_buf@);
            }
        } else if first.is_empty() {
            open = false;
            buf = self.text_buf.clone();
        }
        let mut md = self.md.copy();
        assert(all.take(1)[0] == segs@[0]@);
        let mut i: usize = 1;
        while i < segs.len()
            invariant
                1 <= i <= segs@.len(),
                all == views(segs@),
                v == self@,
                all == split(text@, '\n'),
                can_text(v, all.take(i as int)),
                open == texted(v, all.take(i as int)).text_open,
                buf@ == texted(v, all.take(i as int)).text_buf,
                md.at() == texted(v, all.take(i as int)).md,
            decreases segs@.len() - i,
        {
            assert(all.take(i + 1).drop_last() =~= all.take(i as int));
            assert(all.take(i + 1).last() == segs@[i as int]@);
            if open {
                if !md.renders(buf.as_str()) {
                    proof {
                        if can_text(v, all) {
                            lemma_can_text(v, all, i + 1);
                        }
                    }
                    return false;
                }
                let _outs = md.render_line(buf.as_str());
            }
            open = true;
            buf = segs[i].clone();
            i = i + 1;
        }
        assert(all.take(i as int) =~= all);
        true
    }

    /// Whether an event can be taken; see [`can_apply`].
    pub fn takes(&self, ev: &UiEvent) -> (r: bool)
        ensures
            r == can_apply(self@, ev@),
    {
        match ev {
            UiEvent::TurnStarted => self.closes(true),
            UiEvent::TextDelta(t) => self.takes_text(t.as_str()),
            UiEvent::ToolResult { .. } => self.closes(true),
            UiEvent::TurnDone { .. } => self.closes(true),
            _ => true,
        }
    }

    /// [`AppState::apply`] where the event can be taken; says whether it could. Where it could not,
    /// nothing changes.
    pub fn try_apply(&mut self, ev: UiEvent, todos: &Vec<Todo>) -> (r: bool)
        ensures
            r == can_apply(old(self)@, ev@),
            final(self)@ == (if r {
                applied(old(self)@, ev@, todo_views(todos@))
            } else {
                old(self)@
            }),
    {
        if self.takes(&ev) {
            self.apply(ev, todos);
            true
        } else {
            false
        }
    }
}

// ---- completing commands ----

/// Those of some names that begin with `t`.
pub open spec fn beginning_with(names: Seq<Seq<char>>, t: Seq<char>) -> Seq<Seq<char>>
    decreases names.len(),
{
    if names.len() == 0 {
        Seq::empty()
    } else if t.is_prefix_of(names.last()) {
        beginning_with(names.drop_last(), t).push(names.last())
    } else {
        beginning_with(names.drop_last(), t)
    }
}

/// The commands that an input may become: none unless it begins with a slash, and none where a blank
/// stands in it.
pub open spec fn candidates(input: Seq<char>) -> Seq<Seq<char>> {
    if !"/"@.is_prefix_of(trim(input)) || input.contains(' ') {
        Seq::empty()
    } else {
        beginning_with(known_commands(), trim(input))
    }
}

/// The input becomes the chosen command.
pub open spec fn completed(v: AppView) -> AppView {
    let c = candidates(v.input);
    if c.len() == 0 {
        v
    } else {
        let sel = if v.completion_sel < c.len() {
            v.completion_sel as int
        } else {
            c.len() - 1
        };
        AppView { input: c[sel], cursor: held(c[sel].len() as int), ..v }
    }
}

proof fn lemma_candidates(names: Seq<Seq<char>>, t: Seq<char>)
    ensures
        beginning_with(names, t).len() <= names.len(),
    decreases names.len(),
{
    if names.len() > 0 {
        lemma_candidates(names.drop_last(), t);
    }
}

fn has_blank(s: &str) -> (r: bool)
    ensures
        r == s@.contains(' '),
{
    let v = to_chars(s);
    let mut i: usize = 0;
    while i < v.len()
        invariant
            i <= v@.len(),
            v@ == s@,
            forall|k: int| 0 <= k < i ==> s@[k] != ' ',
        decreases v@.len() - i,
    {
        if v[i] == ' ' {
            assert(s@[i as int] == ' ');
            return true;
        }
        i = i + 1;
    }
    false
}

// ---- keys ----

/// What a key leads to.
#[derive(Debug, PartialEq)]
pub enum KeyOutcome {
    Nothing,
    Submit(String),
    Confirm(bool),
    Interrupt,
    Quit,
    /// The field that is being edited is to be saved.
    SaveField,
}

/// What [`KeyOutcome`] says.
pub enum OutcomeView {
    Nothing,
    Submit(Seq<char>),
    Confirm(bool),
    Interrupt,
    Quit,
    SaveField,
}

impl View for KeyOutcome {
    type V = OutcomeView;

    open spec fn view(&self) -> OutcomeView {
        match self {
            KeyOutcome::Nothing => OutcomeView::Nothing,
            KeyOutcome::Submit(t) => OutcomeView::Submit(t@),
            KeyOutcome::Confirm(b) => OutcomeView::Confirm(*b),
            KeyOutcome::Interrupt => OutcomeView::Interrupt,
            KeyOutcome::Quit => OutcomeView::Quit,
            KeyOutcome::SaveField => OutcomeView::SaveField,
        }
    }
}

/// `n` fewer, but no less than none.
pub open spec fn fewer(a: usize, n: int) -> usize {
    if a >= n {
        (a - n) as usize
    } else {
        0
    }
}

/// The input that waited comes back, with the cursor at its end.
pub open spec fn unstashed(v: AppView) -> AppView {
    match v.input_stash {
        Some(s) => AppView { input: s, cursor: held(s.len() as int), input_stash: None, ..v },
        None => v,
    }
}

/// Editing a field ends.
pub open spec fn edit_ended(v: AppView) -> AppView {
    let u = unstashed(v);
    AppView {
        settings_edit: false,
        settings: match u.settings {
            Some((s, p)) => Some((s, PageState { editing: false, ..p })),
            None => None,
        },
        ..u
    }
}

/// Editing a field begins: the input waits, and the field's value takes its place.
pub open spec fn edit_begun(v: AppView) -> AppView {
    match v.settings {
        None => v,
        Some((s, p)) => {
            let text = field_text(s, p.selected as int, p.field_sel as int);
            AppView {
                input_stash: Some(v.input),
                input: text,
                cursor: held(text.len() as int),
                settings: Some((s, PageState { editing: true, ..p })),
                settings_edit: true,
                settings_msg: None,
                ..v
            }
        },
    }
}

/// An edit was saved, or was not: what came of it is told, and where it was saved, the
/// configuration is to take effect.
pub open spec fn edit_finished(v: AppView, outcome: Result<ConfigView, Seq<char>>) -> AppView {
    match v.settings {
        None => v,
        Some((s, p)) => edit_ended(
            match outcome {
                Ok(c) => AppView {
                    settings: Some((showing(s, c), p)),
                    settings_msg: Some(
                        (
                            saved_note(showing(s, c), p.selected as int, p.field_sel as int),
                            true,
                        ),
                    ),
                    settings_commit: Some(c),
                    ..v
                },
                Err(m) => AppView { settings_msg: Some((m, false)), ..v },
            },
        ),
    }
}

/// A key while the user is asked something.
pub open spec fn key_in_question(v: AppView, code: Key) -> (OutcomeView, AppView) {
    match code {
        Key::PageUp => (
            OutcomeView::Nothing,
            AppView { confirm_scroll: fewer(v.confirm_scroll, 10), ..v },
        ),
        Key::PageDown => (
            OutcomeView::Nothing,
            AppView { confirm_scroll: held(v.confirm_scroll + 10), ..v },
        ),
        Key::Char('y') | Key::Char('Y') => (
            OutcomeView::Confirm(true),
            AppView { pending_confirm: None, ..v },
        ),
        Key::Char('n') | Key::Char('N') | Key::Esc => (
            OutcomeView::Confirm(false),
            AppView { pending_confirm: None, ..v },
        ),
        _ => (OutcomeView::Nothing, v),
    }
}

/// A letter in the input line. With the control key, and nothing else, two letters have a meaning.
pub open spec fn letter(v: AppView, c: char, key: KeyPress) -> (OutcomeView, AppView) {
    if key.only_control() && c == 'c' {
        if v.busy {
            (OutcomeView::Interrupt, v)
        } else {
            (OutcomeView::Quit, AppView { quit: true, ..v })
        }
    } else if key.only_control() && c == 'u' {
        (OutcomeView::Nothing, AppView { input: Seq::empty(), cursor: 0, ..v })
    } else if !key.control {
        (
            OutcomeView::Nothing,
            AppView {
                input: v.input.insert(v.cursor as int, c),
                cursor: held(v.cursor + 1),
                ..v
            },
        )
    } else {
        (OutcomeView::Nothing, v)
    }
}

/// A key in the input line.
pub open spec fn key_in_line(v: AppView, key: KeyPress) -> (OutcomeView, AppView) {
    let n = candidates(v.input).len() as int;
    let same_input = match key.code {
        Key::PageUp => AppView { scroll: held(v.scroll + 10), ..v },
        Key::PageDown => AppView { scroll: fewer(v.scroll, 10), ..v },
        Key::Up => if n > 0 {
            AppView { completion_sel: ((v.completion_sel + n - 1) % n) as usize, ..v }
        } else {
            v
        },
        Key::Down => if n > 0 {
            AppView { completion_sel: ((v.completion_sel + 1) % n) as usize, ..v }
        } else {
            v
        },
        Key::Tab => completed(v),
        Key::Left => AppView { cursor: fewer(v.cursor, 1), ..v },
        Key::Right => AppView {
            cursor: if v.cursor < v.input.len() {
                (v.cursor + 1) as usize
            } else {
                v.cursor
            },
            ..v
        },
        Key::Home => AppView { cursor: 0, ..v },
        Key::End => AppView { cursor: held(v.input.len() as int), ..v },
        Key::Backspace => if v.cursor > 0 {
            AppView {
                input: v.input.remove(v.cursor - 1),
                cursor: (v.cursor - 1) as usize,
                ..v
            }
        } else {
            v
        },
        Key::Delete => if v.cursor < v.input.len() {
            AppView { input: v.input.remove(v.cursor as int), ..v }
        } else {
            v
        },
        _ => v,
    };
    match key.code {
        Key::Char(c) => letter(v, c, key),
        Key::Enter => if all_white(v.input) {
            (OutcomeView::Nothing, v)
        } else {
            (
                OutcomeView::Submit(v.input),
                AppView { input: Seq::empty(), cursor: 0, completion_sel: 0, ..v },
            )
        },
        _ => (OutcomeView::Nothing, same_input),
    }
}

/// A key where the settings are not in the way.
pub open spec fn key_below(v: AppView, key: KeyPress) -> (OutcomeView, AppView) {
    if v.pending_confirm is Some {
        key_in_question(v, key.code)
    } else {
        key_in_line(v, key)
    }
}

/// Whether a key is the one that interrupts and leaves, which the settings let through.
pub open spec fn breaks_off(key: KeyPress) -> bool {
    key.code == Key::Char('c') && key.control
}

/// What a key does. The settings, where they are open, come first, then what the user is asked,
/// then the input line.
pub open spec fn keyed(v: AppView, key: KeyPress) -> (OutcomeView, AppView) {
    match v.settings {
        None => key_below(v, key),
        Some((s, p)) => if breaks_off(key) {
            key_below(v, key)
        } else if v.settings_edit {
            match key.code {
                Key::Enter => (OutcomeView::SaveField, v),
                Key::Esc => (OutcomeView::Nothing, edit_ended(v)),
                _ => key_below(v, key),
            }
        } else {
            let (action, page) = moved(p, p.selected as int, key.code);
            let w = AppView { settings: Some((s, page)), ..v };
            (
                OutcomeView::Nothing,
                match action {
                    PageAction::Quit => AppView { settings: None, ..v },
                    PageAction::EditField(_) => edit_begun(w),
                    _ => w,
                },
            )
        },
    }
}

impl AppState {
    /// The commands that the input may become; see [`candidates`].
    pub fn completion_candidates(&self) -> (r: Vec<&'static str>)
        ensures
            str_views(r@) == candidates(self@.input),
            r@.len() <= 3,
    {
        let t = trimmed(self.input.as_str());
        let mut r: Vec<&'static str> = Vec::new();
        assert(str_views(r@) =~= Seq::empty());
        if !begins_with(t.as_str(), "/") || has_blank(self.input.as_str()) {
            return r;
        }
        let names = command_names();
        let ghost all = str_views(names@);
        let mut i: usize = 0;
        assert(all.take(0) =~= Seq::empty());
        while i < names.len()
            invariant
                i <= names@.len(),
                all == str_views(names@),
                str_views(r@) == beginning_with(all.take(i as int), t@),
            decreases names@.len() - i,
        {
            assert(all.take(i + 1).drop_last() =~= all.take(i as int));
            assert(all.take(i + 1).last() == names@[i as int]@);
            if begins_with(names[i], t.as_str()) {
                let ghost before = r@;
                r.push(names[i]);
                assert(str_views(r@) =~= str_views(before).push(names@[i as int]@));
            }
            i = i + 1;
        }
        assert(all.take(i as int) =~= all);
        proof {
            lemma_candidates(all, t@);
            assert(str_views(r@).len() == r@.len());
        }
        r
    }

    fn set_input(&mut self, s: &str)
        ensures
            final(self)@ == (AppView {
                input: s@,
                cursor: held(s@.len() as int),
                ..old(self)@
            }),
    {
        self.input = s.to_owned();
        self.cursor = char_count(s);
    }

    /// Makes the input the chosen command; see [`completed`].
    pub fn complete_input(&mut self)
        ensures
            final(self)@ == completed(old(self)@),
    {
        let c = self.completion_candidates();
        assert(str_views(c@).len() == c@.len());
        if c.len() == 0 {
            return;
        }
        let sel: usize = if self.completion_sel < c.len() {
            self.completion_sel
        } else {
            c.len() - 1
        };
        assert(str_views(c@)[sel as int] == c@[sel as int]@);
        self.set_input(c[sel]);
    }

    fn begin_settings_edit(&mut self)
        ensures
            final(self)@ == edit_begun(old(self)@),
    {
        let (text, page) = match &self.settings {
            None => {
                return;
            },
            Some((s, p)) => (field_display(s, p.selected, p.field_sel), *p),
        };
        let before = self.input.clone();
        self.input_stash = Some(before);
        self.set_input(text.as_str());
        self.set_page(
            PageState {
                selected: page.selected,
                in_detail: page.in_detail,
                field_sel: page.field_sel,
                editing: true,
            },
        );
        self.settings_edit = true;
        self.settings_msg = None;
    }

    fn set_page(&mut self, page: PageState)
        ensures
            final(self)@ == (AppView {
                settings: match old(self)@.settings {
                    Some((s, _)) => Some((s, page)),
                    None => None,
                },
                ..old(self)@
            }),
    {
        let settings = self.settings.take();
        self.settings = match settings {
            Some((s, _)) => Some((s, page)),
            None => None,
        };
    }

    fn end_settings_edit(&mut self)
        ensures
            final(self)@ == edit_ended(old(self)@),
    {
        let stash = self.input_stash.take();
        if let Some(s) = stash {
            self.set_input(s.as_str());
        }
        self.settings_edit = false;
        let page = match &self.settings {
            None => {
                return;
            },
            Some((_, p)) => *p,
        };
        self.set_page(
            PageState {
                selected: page.selected,
                in_detail: page.in_detail,
                field_sel: page.field_sel,
                editing: false,
            },
        );
    }

    /// Plans the edit of the chosen field, for a configuration file that holds `file`; nothing is
    /// planned where the settings are not open, or where the file is in the way.
    pub fn plan_settings_edit(&self, file: Option<&str>) -> (r: Option<Result<EditPlan, String>>)
        ensures
            match self@.settings {
                None => r is None,
                Some((s, p)) => match r {
                    None => file_in_the_way(
                        s,
                        p.selected as int,
                        p.field_sel as int,
                        self@.input,
                        file_view(file),
                    ),
                    Some(Ok(plan)) => planned(
                        s,
                        p.selected as int,
                        p.field_sel as int,
                        self@.input,
                        file_view(file),
                    ) == Ok::<(ConfigView, Seq<char>), Seq<char>>((plan.config@, plan.file@)),
                    Some(Err(m)) => planned(
                        s,
                        p.selected as int,
                        p.field_sel as int,
                        self@.input,
                        file_view(file),
                    ) == Err::<(ConfigView, Seq<char>), Seq<char>>(m@),
                },
            },
            match self@.settings {
                None => true,
                Some((s, p)) => r is Some ==> !file_in_the_way(
                    s,
                    p.selected as int,
                    p.field_sel as int,
                    self@.input,
                    file_view(file),
                ),
            },
    {
        match &self.settings {
            None => None,
            Some((s, p)) => s.plan_edit(p.selected, p.field_sel, self.input.as_str(), file),
        }
    }

    /// Takes what came of an edit: the plan, where its file was written, or why it was not; see
    /// [`edit_finished`].
    pub fn commit_settings_edit(&mut self, outcome: Result<EditPlan, String>)
        ensures
            final(self)@ == edit_finished(
                old(self)@,
                match outcome {
                    Ok(plan) => Ok(plan.config@),
                    Err(m) => Err(m@),
                },
            ),
    {
        let settings = self.settings.take();
        match settings {
            None => {
                return;
            },
            Some((s, p)) => {
                let mut s = s;
                match outcome {
                    Ok(plan) => {
                        let config = plan.config.clone();
                        let note = s.apply_edit(p.selected, p.field_sel, plan);
                        self.settings_msg = Some((note, true));
                        self.settings_commit = Some(config);
                    },
                    Err(m) => {
                        self.settings_msg = Some((m, false));
                    },
                }
                self.settings = Some((s, p));
            },
        }
        self.end_settings_edit();
    }

    /// Takes the configuration that is to take effect, where there is one.
    pub fn take_settings_commit(&mut self) -> (r: Option<Config>)
        ensures
            match r {
                Some(c) => old(self)@.settings_commit == Some(c@),
                None => old(self)@.settings_commit is None,
            },
            final(self)@ == (AppView { settings_commit: None, ..old(self)@ }),
    {
        self.settings_commit.take()
    }

    fn question_key(&mut self, code: Key) -> (r: KeyOutcome)
        ensures
            (r@, final(self)@) == key_in_question(old(self)@, code),
    {
        match code {
            Key::PageUp => {
                self.confirm_scroll = self.confirm_scroll.saturating_sub(10);
                KeyOutcome::Nothing
            },
            Key::PageDown => {
                self.confirm_scroll = self.confirm_scroll.saturating_add(10);
                KeyOutcome::Nothing
            },
            Key::Char('y') | Key::Char('Y') => {
                self.pending_confirm = None;
                KeyOutcome::Confirm(true)
            },
            Key::Char('n') | Key::Char('N') | Key::Esc => {
                self.pending_confirm = None;
                KeyOutcome::Confirm(false)
            },
            _ => KeyOutcome::Nothing,
        }
    }

    fn letter_key(&mut self, c: char, key: KeyPress) -> (r: KeyOutcome)
        requires
            old(self)@.well_formed(),
        ensures
            (r@, final(self)@) == letter(old(self)@, c, key),
            final(self)@.well_formed(),
    {
        let only_control = key.control && !key.alt && !key.other;
        if only_control && c == 'c' {
            if self.busy {
                return KeyOutcome::Interrupt;
            }
            self.quit = true;
            return KeyOutcome::Quit;
        }
        if only_control && c == 'u' {
            self.input = String::new();
            self.cursor = 0;
            return KeyOutcome::Nothing;
        }
        if !key.control {
            let mut v = to_chars(self.input.as_str());
            v.insert(self.cursor, c);
            let n: usize = v.len();
            assert(self.cursor < n);
            self.input = from_chars(v.as_slice());
            self.cursor = self.cursor + 1;
        }
        KeyOutcome::Nothing
    }

    fn choose_completion(&mut self, up: bool)
        requires
            old(self)@.well_formed(),
        ensures
            final(self)@ == key_in_line(
                old(self)@,
                KeyPress {
                    code: if up {
                        Key::Up
                    } else {
                        Key::Down
                    },
                    control: false,
                    alt: false,
                    other: false,
                },
            ).1,
            final(self)@.well_formed(),
    {
        let c = self.completion_candidates();
        let n: usize = c.len();
        assert(str_views(c@).len() == n);
        if n > 0 {
            if up {
                self.completion_sel = (self.completion_sel + n - 1) % n;
            } else {
                self.completion_sel = (self.completion_sel + 1) % n;
            }
        }
    }

    fn remove_at(&mut self, i: usize)
        requires
            i < old(self)@.input.len(),
        ensures
            final(self)@ == (AppView { input: old(self)@.input.remove(i as int), ..old(self)@ }),
    {
        let mut v = to_chars(self.input.as_str());
        v.remove(i);
        self.input = from_chars(v.as_slice());
    }

    fn line_key(&mut self, key: KeyPress) -> (r: KeyOutcome)
        requires
            old(self)@.well_formed(),
        ensures
            (r@, final(self)@) == key_in_line(old(self)@, key),
            final(self)@.well_formed(),
    {
        let count = char_count(self.input.as_str());
        match key.code {
            Key::Char(c) => {
                return self.letter_key(c, key);
            },
            Key::Enter => {
                if !blank(self.input.as_str()) {
                    let text = self.input.clone();
                    self.input = String::new();
                    self.cursor = 0;
                    self.completion_sel = 0;
                    return KeyOutcome::Submit(text);
                }
            },
            Key::PageUp => {
                self.scroll = self.scroll.saturating_add(10);
            },
            Key::PageDown => {
                self.scroll = self.scroll.saturating_sub(10);
            },
            Key::Up => self.choose_completion(true),
            Key::Down => self.choose_completion(false),
            Key::Tab => self.complete_input(),
            Key::Left => {
                self.cursor = self.cursor.saturating_sub(1);
            },
            Key::Right => {
                if self.cursor < count {
                    self.cursor = self.cursor + 1;
                }
            },
            Key::Home => {
                self.cursor = 0;
            },
            Key::End => {
                self.cursor = count;
            },
            Key::Backspace => {
                if self.cursor > 0 {
                    self.remove_at(self.cursor - 1);
                    self.cursor = self.cursor - 1;
                }
            },
            Key::Delete => {
                if self.cursor < count {
                    self.remove_at(self.cursor);
                }
            },
            _ => {},
        }
        KeyOutcome::Nothing
    }

    fn key_below(&mut self, key: KeyPress) -> (r: KeyOutcome)
        requires
            old(self)@.well_formed(),
        ensures
            (r@, final(self)@) == key_below(old(self)@, key),
            final(self)@.well_formed(),
    {
        if self.pending_confirm.is_some() {
            self.question_key(key.code)
        } else {
            self.line_key(key)
        }
    }

    /// Takes a key; see [`keyed`].
    pub fn handle_key(&mut self, key: KeyPress) -> (r: KeyOutcome)
        requires
            old(self)@.well_formed(),
        ensures
            (r@, final(self)@) == keyed(old(self)@, key),
            final(self)@.well_formed(),
    {
        let mut page = match &self.settings {
            None => {
                return self.key_below(key);
            },
            Some((_, p)) => *p,
        };
        let breaks = match key.code {
            Key::Char('c') => key.control,
            _ => false,
        };
        if breaks {
            return self.key_below(key);
        }
        if self.settings_edit {
            return match key.code {
                Key::Enter => KeyOutcome::SaveField,
                Key::Esc => {
                    self.end_settings_edit();
                    KeyOutcome::Nothing
                },
                _ => self.key_below(key),
            };
        }
        let action = page.handle_key(page.selected, key.code);
        match action {
            PageAction::Quit => {
                self.settings = None;
            },
            PageAction::EditField(_) => {
                self.set_page(page);
                self.begin_settings_edit();
            },
            _ => {
                self.set_page(page);
            },
        }
        KeyOutcome::Nothing
    }

    /// Takes a turn of the mouse wheel: what the user is asked scrolls, or else the transcript.
    pub fn wheel(&mut self, up: bool)
        ensures
            final(self)@ == (if old(self)@.pending_confirm is Some {
                AppView {
                    confirm_scroll: if up {
                        held(old(self)@.confirm_scroll + 3)
                    } else {
                        fewer(old(self)@.confirm_scroll, 3)
                    },
                    ..old(self)@
                }
            } else {
                AppView {
                    scroll: if up {
                        held(old(self)@.scroll + 3)
                    } else {
                        fewer(old(self)@.scroll, 3)
                    },
                    ..old(self)@
                }
            }),
    {
        if self.pending_confirm.is_some() {
            self.confirm_scroll = if up {
                self.confirm_scroll.saturating_add(3)
            } else {
                self.confirm_scroll.saturating_sub(3)
            };
        } else {
            self.scroll = if up {
                self.scroll.saturating_add(3)
            } else {
                self.scroll.saturating_sub(3)
            };
        }
    }
}

impl Default for AppState {
    fn default() -> (r: Self)
        ensures
            r@ == at_first(),
            r@.well_formed(),
    {
        AppState::new()
    }
}

// ---- laws ----

/// Events leave the input and its cursor alone.
pub proof fn law_events_leave_the_input(v: AppView, ev: UiEventView, todos: Seq<TodoView>)
    ensures
        applied(v, ev, todos).input == v.input,
        applied(v, ev, todos).cursor == v.cursor,
        v.well_formed() ==> applied(v, ev, todos).well_formed(),
{
    if let UiEventView::TextDelta(t) = ev {
        lemma_texted_keeps(v, split(t, '\n'));
    }
}

/// Whatever is told, echoed, completed or saved, the cursor stays in the input and the chosen command
/// among the commands. That a key keeps them there is stated of [`AppState::handle_key`].
pub proof fn law_state_stays_valid(
    v: AppView,
    ev: UiEventView,
    todos: Seq<TodoView>,
    text: Seq<char>,
    outcome: Result<ConfigView, Seq<char>>,
)
    requires
        v.well_formed(),
    ensures
        applied(v, ev, todos).well_formed(),
        echoed(v, text).well_formed(),
        completed(v).well_formed(),
        edit_finished(v, outcome).well_formed(),
{
    law_events_leave_the_input(v, ev, todos);
}

/// Text that streams in goes on where it was: on the same line, behind what stands there.
pub proof fn law_text_goes_on(v: AppView, seg: Seq<char>)
    requires
        v.text_open,
        v.transcript.len() > 0,
    ensures
        ({
            let w = appended(v, seg);
            &&& w.transcript.len() == v.transcript.len()
            &&& w.transcript.drop_last() == v.transcript.drop_last()
            &&& text_of(w.transcript.last()) == text_of(v.transcript.last()) + seg
            &&& w.text_buf == v.text_buf + seg
        }),
{
    let w = appended(v, seg);
    let last = v.transcript.last();
    if seg.len() == 0 {
        assert(text_of(last) + seg =~= text_of(last));
        assert(v.text_buf + seg =~= v.text_buf);
    } else {
        assert(w.transcript.drop_last() =~= v.transcript.drop_last());
        assert(last.push(raw_span(seg)).drop_last() =~= last);
    }
}

/// Whether two states look the same: they are the same but for how the text of a line is parted.
pub open spec fn look_the_same(x: AppView, y: AppView) -> bool {
    &&& x == (AppView { transcript: x.transcript, ..y })
    &&& x.transcript.len() == y.transcript.len()
    &&& forall|i: int|
        0 <= i < x.transcript.len() ==> text_of(#[trigger] x.transcript[i]) == text_of(y.transcript[i])
}

/// A line of plain text holds that text.
proof fn lemma_raw_text(seg: Seq<char>)
    requires
        !seg.contains('\n'),
    ensures
        text_of(raw_line(seg)) == seg,
{
    lemma_split_whole(seg, '\n');
    reveal_with_fuel(text_of, 2);
    if seg.len() == 0 {
        assert(raw_line(seg) =~= Seq::empty());
        assert(seg =~= Seq::empty());
    } else {
        assert(lines(seg) =~= seq![seg]);
        assert(raw_line(seg) =~= seq![raw_span(seg)]);
        assert(raw_line(seg).drop_last() =~= Seq::empty());
        assert(Seq::<char>::empty() + seg =~= seg);
    }
}

/// What looks the same looks the same with one line complete and another begun.
proof fn lemma_next_line(x: AppView, y: AppView, seg: Seq<char>)
    requires
        look_the_same(x, y),
    ensures
        look_the_same(opened(closed(x, false), seg), opened(closed(y, false), seg)),
        can_close(x, false) == can_close(y, false),
{
}

/// More text on a line: in two pieces or in one, it looks the same.
proof fn lemma_two_pieces(v: AppView, a: Seq<char>, b: Seq<char>)
    requires
        !a.contains('\n'),
        !b.contains('\n'),
        !(a + b).contains('\n'),
    ensures
        look_the_same(appended(appended(v, a), b), appended(v, a + b)),
{
    let t = v.transcript;
    let one = appended(v, a + b);
    let two = appended(appended(v, a), b);
    lemma_raw_text(a);
    lemma_raw_text(b);
    lemma_raw_text(a + b);
    if a.len() == 0 {
        assert(a + b =~= b);
    } else if b.len() == 0 {
        assert(a + b =~= a);
    }
    if v.text_open && t.len() > 0 {
        law_text_goes_on(v, a);
        law_text_goes_on(appended(v, a), b);
        law_text_goes_on(v, a + b);
        assert(text_of(t.last()) + a + b =~= text_of(t.last()) + (a + b));
        assert(v.text_buf + a + b =~= v.text_buf + (a + b));
        assert forall|i: int| 0 <= i < two.transcript.len() implies text_of(
            #[trigger] two.transcript[i],
        ) == text_of(one.transcript[i]) by {
            if i < t.len() - 1 {
                assert(two.transcript.drop_last()[i] == t.drop_last()[i]);
                assert(one.transcript.drop_last()[i] == t.drop_last()[i]);
            }
        }
    } else if a.len() > 0 {
        let w = appended(v, a);
        law_text_goes_on(w, b);
        assert(two.transcript.drop_last() =~= t);
        assert forall|i: int| 0 <= i < two.transcript.len() implies text_of(
            #[trigger] two.transcript[i],
        ) == text_of(one.transcript[i]) by {
            if i < t.len() {
                assert(two.transcript.drop_last()[i] == t[i]);
            }
        }
    }
}

/// The pieces of two texts, where the last of the one and the first of the other are one.
pub open spec fn pieces_joined(p: Seq<Seq<char>>, q: Seq<Seq<char>>) -> Seq<Seq<char>> {
    p.drop_last() + seq![p.last() + q[0]] + q.drop_first()
}

proof fn lemma_two_texts(v: AppView, p: Seq<Seq<char>>, q: Seq<Seq<char>>)
    requires
        p.len() >= 1,
        q.len() >= 1,
        !p.last().contains('\n'),
        !q[0].contains('\n'),
        !(p.last() + q[0]).contains('\n'),
    ensures
        look_the_same(texted(texted(v, p), q), texted(v, pieces_joined(p, q))),
        can_text(v, pieces_joined(p, q)) == (can_text(v, p) && can_text(texted(v, p), q)),
    decreases q.len(),
{
    let all = pieces_joined(p, q);
    if q.len() == 1 {
        assert(all =~= p.drop_last().push(p.last() + q[0]));
        assert(all.drop_last() =~= p.drop_last());
        if p.len() == 1 {
            lemma_two_pieces(v, p[0], q[0]);
        } else {
            let w = closed(texted(v, p.drop_last()), false);
            assert(texted(v, p) == opened(w, p.last()));
            assert(texted(v, all) == opened(w, p.last() + q[0]));
            lemma_opened_then(w, p.last(), q[0]);
        }
    } else {
        let r = q.drop_last();
        lemma_two_texts(v, p, r);
        assert(all.drop_last() =~= pieces_joined(p, r));
        assert(all.last() == q.last());
        lemma_next_line(texted(texted(v, p), r), texted(v, pieces_joined(p, r)), q.last());
    }
}

/// A line that is begun and goes on looks like one that is begun with all of it.
proof fn lemma_opened_then(w: AppView, a: Seq<char>, b: Seq<char>)
    requires
        !a.contains('\n'),
        !(a + b).contains('\n'),
    ensures
        look_the_same(appended(opened(w, a), b), opened(w, a + b)),
{
    let v = opened(w, a);
    let one = opened(w, a + b);
    let two = appended(v, b);
    lemma_raw_text(a);
    lemma_raw_text(a + b);
    law_text_goes_on(v, b);
    assert(v.transcript.drop_last() =~= w.transcript);
    if b.len() == 0 {
        assert(a + b =~= a);
    }
    assert forall|i: int| 0 <= i < two.transcript.len() implies text_of(#[trigger] two.transcript[i])
        == text_of(one.transcript[i]) by {
        if i < w.transcript.len() {
            assert(two.transcript.drop_last()[i] == w.transcript[i]);
        }
    }
}

/// A reply looks the same however it is cut: two pieces of text, one after the other, leave what the
/// two in one would, line by line; and the one way can be taken where the other can.
pub proof fn law_pieces_make_no_difference(v: AppView, a: Seq<char>, b: Seq<char>, todos: Seq<TodoView>)
    ensures
        ({
            let w = applied(v, UiEventView::TextDelta(a), todos);
            &&& look_the_same(
                applied(w, UiEventView::TextDelta(b), todos),
                applied(v, UiEventView::TextDelta(a + b), todos),
            )
            &&& can_apply(v, UiEventView::TextDelta(a + b)) == (can_apply(v, UiEventView::TextDelta(a))
                && can_apply(w, UiEventView::TextDelta(b)))
        }),
{
    let p = split(a, '\n');
    let q = split(b, '\n');
    lemma_split_nonempty(a, '\n');
    lemma_split_nonempty(b, '\n');
    lemma_split_pieces(a, '\n');
    lemma_split_pieces(b, '\n');
    lemma_split_add(a, b, '\n');
    assert(!p[p.len() - 1].contains('\n'));
    assert(!q[0].contains('\n'));
    let m = p.last() + q[0];
    if m.contains('\n') {
        let k = m.index_of('\n');
        if k < p.last().len() {
            assert(p[p.len() - 1][k] == '\n');
        } else {
            assert(q[0][k - p.last().len()] == '\n');
        }
    }
    lemma_two_texts(v, p, q);
}

/// Text after the result of a tool, after the user's input and in a new turn begins a line of its
/// own.
pub proof fn law_text_begins_anew(
    v: AppView,
    tool_name: Seq<char>,
    first_line: Seq<char>,
    is_error: bool,
    input: Seq<char>,
    todos: Seq<TodoView>,
)
    ensures
        !applied(
            v,
            UiEventView::ToolResult { tool_name, first_line, is_error },
            todos,
        ).text_open,
        !echoed(v, input).text_open,
        !applied(v, UiEventView::TurnStarted, todos).text_open,
{
}

/// Where no line is open, text opens one behind the transcript and changes no other.
pub proof fn law_new_text_changes_no_line(v: AppView, seg: Seq<char>)
    requires
        !v.text_open,
        seg.len() > 0,
    ensures
        appended(v, seg).transcript == v.transcript.push(raw_line(seg)),
{
}

/// What is submitted is the input, all of it; a blank one is not submitted.
pub proof fn law_submits_the_input(v: AppView, key: KeyPress)
    requires
        v.settings is None,
        v.pending_confirm is None,
        key.code == Key::Enter,
    ensures
        all_white(v.input) ==> keyed(v, key) == (OutcomeView::Nothing, v),
        !all_white(v.input) ==> keyed(v, key).0 == OutcomeView::Submit(v.input) && keyed(
            v,
            key,
        ).1.input.len() == 0,
{
}

/// While the settings are open and no field is edited, no key reaches the input, the transcript or
/// what the user is asked, save the one that interrupts; and none of them is submitted.
pub proof fn law_settings_take_the_keys(v: AppView, key: KeyPress)
    requires
        v.settings is Some,
        !v.settings_edit,
        !breaks_off(key),
    ensures
        keyed(v, key).0 == OutcomeView::Nothing,
        keyed(v, key).1.pending_confirm == v.pending_confirm,
        keyed(v, key).1.transcript == v.transcript,
        keyed(v, key).1.settings_edit || keyed(v, key).1.input == v.input,
{
}

/// An edit that is given up leaves the input as it was, and changes no configuration.
pub proof fn law_given_up_edit_changes_nothing(v: AppView)
    requires
        v.settings is Some,
        v.input.len() <= usize::MAX,
    ensures
        ({
            let w = edit_ended(edit_begun(v));
            &&& w.input == v.input
            &&& !w.settings_edit
            &&& w.settings is Some
            &&& (w.settings->0).0 == (v.settings->0).0
            &&& w.settings_commit == v.settings_commit
        }),
{
}

/// An edit that was not saved changes no configuration, and none takes effect.
pub proof fn law_failed_edit_changes_no_configuration(v: AppView, why: Seq<char>)
    requires
        v.settings is Some,
    ensures
        ({
            let w = edit_finished(v, Err::<ConfigView, Seq<char>>(why));
            &&& w.settings is Some
            &&& (w.settings->0).0 == (v.settings->0).0
            &&& w.settings_commit == v.settings_commit
            &&& w.settings_msg == Some((why, false))
            &&& !w.settings_edit
        }),
{
}

/// Only `y` allows what the user is asked; it stays open until it is answered.
pub proof fn law_only_y_allows(v: AppView, code: Key)
    requires
        v.pending_confirm is Some,
    ensures
        key_in_question(v, code).0 == OutcomeView::Confirm(true) <==> (code == Key::Char('y')
            || code == Key::Char('Y')),
        key_in_question(v, code).0 is Confirm <==> key_in_question(v, code).1.pending_confirm is None,
        !(key_in_question(v, code).0 is Confirm) ==> key_in_question(v, code).1.pending_confirm
            == v.pending_confirm,
{
}

/// What was typed is taken back by rubbing it out.
pub proof fn law_rubbing_out_undoes_typing(v: AppView, c: char)
    requires
        v.well_formed(),
        v.cursor < usize::MAX,
    ensures
        ({
            let typed = key_in_line(
                v,
                KeyPress { code: Key::Char(c), control: false, alt: false, other: false },
            ).1;
            let back = key_in_line(
                typed,
                KeyPress { code: Key::Backspace, control: false, alt: false, other: false },
            ).1;
            back.input == v.input && back.cursor == v.cursor
        }),
{
    let typed = key_in_line(
        v,
        KeyPress { code: Key::Char(c), control: false, alt: false, other: false },
    ).1;
    assert(typed.input.remove(v.cursor as int) =~= v.input);
}


/// Whether keys go to the input line: no settings are open and nothing is asked.
pub open spec fn typing(v: AppView) -> bool {
    v.settings is None && v.pending_confirm is None
}

/// A key changes the input where the cursor stands: a letter goes in before it, the two keys that
/// take out take what stands before it and what stands behind it, and the others move the cursor.
pub proof fn law_keys_edit_the_input(v: AppView, key: KeyPress)
    requires
        typing(v),
        v.cursor <= v.input.len() < usize::MAX,
    ensures
        ({
            let (out, w) = keyed(v, key);
            let before = v.input.take(v.cursor as int);
            let behind = v.input.skip(v.cursor as int);
            &&& key.code is Char && !key.control ==> out is Nothing && w.input == before.push(
                key.code->Char_0,
            ) + behind && w.cursor == v.cursor + 1
            &&& key.code == Key::Char('u') && key.only_control() ==> w.input.len() == 0 && w.cursor == 0
            &&& key.code == Key::Char('c') && key.only_control() && v.busy ==> out is Interrupt && w == v
            &&& key.code == Key::Char('c') && key.only_control() && !v.busy ==> out is Quit && w.quit
            &&& key.code is Backspace && before.len() > 0 ==> w.input == before.drop_last() + behind
                && w.cursor == v.cursor - 1
            &&& key.code is Backspace && before.len() == 0 ==> w == v
            &&& key.code is Delete && behind.len() > 0 ==> w.input == before + behind.skip(1) && w.cursor
                == v.cursor
            &&& key.code is Delete && behind.len() == 0 ==> w == v
            &&& key.code is Left && before.len() > 0 ==> w.input == v.input && w.cursor == v.cursor - 1
            &&& key.code is Left && before.len() == 0 ==> w == v
            &&& key.code is Right && behind.len() > 0 ==> w.input == v.input && w.cursor == v.cursor + 1
            &&& key.code is Right && behind.len() == 0 ==> w == v
            &&& key.code is Home ==> w.input == v.input && w.cursor == 0
            &&& key.code is End ==> w.input == v.input && w.cursor == v.input.len()
            &&& w.transcript == v.transcript && w.todos == v.todos && w.status == v.status && w.busy
                == v.busy
        }),
{
    let (out, w) = keyed(v, key);
    let before = v.input.take(v.cursor as int);
    let behind = v.input.skip(v.cursor as int);
    match key.code {
        Key::Char(c) => {
            if !key.control {
                assert(w.input =~= before.push(c) + behind);
            }
        },
        Key::Backspace => {
            if v.cursor > 0 {
                assert(w.input =~= before.drop_last() + behind);
            }
        },
        Key::Delete => {
            if v.cursor < v.input.len() {
                assert(w.input =~= before + behind.skip(1));
            }
        },
        _ => {},
    }
}

/// The pages of the transcript are turned by ten lines, back and forth, and the arrows go round
/// among the commands that may be meant.
pub proof fn law_keys_scroll_and_choose(v: AppView, key: KeyPress)
    requires
        typing(v),
        v.completion_sel < candidates(v.input).len() || candidates(v.input).len() == 0,
    ensures
        ({
            let w = keyed(v, key).1;
            let n = candidates(v.input).len();
            &&& key.code is PageUp && v.scroll + 10 <= usize::MAX ==> w.scroll == v.scroll + 10
            &&& key.code is PageDown && v.scroll >= 10 ==> w.scroll == v.scroll - 10
            &&& key.code is PageDown && v.scroll < 10 ==> w.scroll == 0
            &&& key.code is Down && n > 0 && v.completion_sel + 1 < n ==> w.completion_sel
                == v.completion_sel + 1
            &&& key.code is Down && n > 0 && v.completion_sel + 1 == n ==> w.completion_sel == 0
            &&& key.code is Up && n > 0 && v.completion_sel > 0 ==> w.completion_sel
                == v.completion_sel - 1
            &&& key.code is Up && n > 0 && v.completion_sel == 0 ==> w.completion_sel == n - 1
            &&& key.code is Tab && n > 0 ==> w.input == candidates(v.input)[v.completion_sel as int]
            &&& key.code is Tab && n == 0 ==> w == v
        }),
{
    let n = candidates(v.input).len() as int;
    lemma_candidates(known_commands(), trim(v.input));
    if n > 0 {
        let sel = v.completion_sel as int;
        if sel > 0 {
            vstd::arithmetic::div_mod::lemma_mod_add_multiples_vanish(sel - 1, n);
            vstd::arithmetic::div_mod::lemma_small_mod((sel - 1) as nat, n as nat);
            assert(n + (sel - 1) == sel + n - 1);
        } else {
            vstd::arithmetic::div_mod::lemma_small_mod((n - 1) as nat, n as nat);
        }
        if sel + 1 < n {
            vstd::arithmetic::div_mod::lemma_small_mod((sel + 1) as nat, n as nat);
        } else {
            vstd::arithmetic::div_mod::lemma_mod_self_0(n);
        }
    }
}

/// The commands that an input may become are those of the three that begin as it does, where it
/// begins with a slash and holds no blank.
pub proof fn law_commands_are_offered(input: Seq<char>)
    requires
        !input.contains(' '),
        trim(input).len() > 0,
        trim(input)[0] == '/',
    ensures
        ({
            let t = trim(input);
            let one = |c: Seq<char>|
                if t.is_prefix_of(c) {
                    seq![c]
                } else {
                    Seq::<Seq<char>>::empty()
                };
            candidates(input) == one("/settings"@) + one("/compact"@) + one("/init"@)
        }),
{
    reveal_strlit("/");
    let t = trim(input);
    assert("/"@ =~= t.take(1));
    let all = known_commands();
    let two = seq!["/settings"@, "/compact"@];
    let first = seq!["/settings"@];
    assert(all.drop_last() =~= two);
    assert(two.drop_last() =~= first);
    assert(first.drop_last() =~= Seq::empty());
    reveal_with_fuel(beginning_with, 4);
    let one = |c: Seq<char>|
        if t.is_prefix_of(c) {
            seq![c]
        } else {
            Seq::<Seq<char>>::empty()
        };
    assert(beginning_with(all, t) =~= one("/settings"@) + one("/compact"@) + one("/init"@));
}

/// What is told changes what it is about: a result is a line behind the transcript, with a mark where
/// it is an error, and only the tool that writes the list changes it; a turn that begins is busy and
/// one that is done is not, and why it failed is a line behind the transcript.
pub proof fn law_events_are_shown(v: AppView, ev: UiEventView, todos: Seq<TodoView>)
    requires
        !v.text_open,
        v.md.table.len() == 0,
    ensures
        ({
            let w = applied(v, ev, todos);
            &&& (ev matches UiEventView::ToolResult { tool_name, first_line, is_error } ==> {
                &&& w.transcript == v.transcript.push(
                    raw_line(
                        if is_error {
                            "  "@ + "⎿ ✗ "@ + first_line
                        } else {
                            "  "@ + "⎿ "@ + first_line
                        },
                    ),
                )
                &&& w.todos == if tool_name == "todo_write"@ {
                    todos
                } else {
                    v.todos
                }
            })
            &&& !(ev is ToolResult) ==> w.todos == v.todos
            &&& ev is TurnStarted ==> w.busy && w.usage is None && w.transcript == v.transcript
            &&& (ev matches UiEventView::TurnDone { ok, message } ==> {
                &&& !w.busy
                &&& ok || message.len() == 0 ==> w.transcript == v.transcript
                &&& !ok && message.len() > 0 ==> w.transcript == v.transcript.push(
                    raw_line("⚠ "@ + message),
                )
                &&& ok ==> w.status == "就绪"@
                &&& !ok ==> w.status == "本轮已中断/失败"@
            })
            &&& !(ev is TurnStarted) && !(ev is TurnDone) ==> w.busy == v.busy
            &&& (ev matches UiEventView::ToolStart { name } ==> w.status == "执行 "@ + name + "…"@
                && w.transcript == v.transcript)
            &&& (ev matches UiEventView::Confirm { action } ==> w.pending_confirm == Some(action)
                && w.confirm_scroll == 0)
            &&& !(ev is Confirm) ==> w.pending_confirm == v.pending_confirm
            &&& (ev matches UiEventView::ContextUsage { used, limit } ==> w.ctx_usage == Some(
                (used, limit),
            ))
            &&& !(ev is ContextUsage) ==> w.ctx_usage == v.ctx_usage
            &&& (ev matches UiEventView::OpenSettings(s) ==> w.settings is Some && (w.settings->0).0 == s
                && (w.settings->0).1.selected == 0 && !(w.settings->0).1.in_detail)
            &&& !(ev is OpenSettings) ==> w.settings == v.settings
            &&& w.quit == (v.quit || ev is Exit)
        }),
{
    if ev is TextDelta {
        lemma_split_nonempty(ev->TextDelta_0, '\n');
        lemma_text_leaves_the_rest(v, split(ev->TextDelta_0, '\n'));
    }
    assert(table_lines(v.md.table).len() == 0);
}

proof fn lemma_text_leaves_the_rest(v: AppView, segs: Seq<Seq<char>>)
    ensures
        ({
            let w = texted(v, segs);
            &&& w.todos == v.todos && w.busy == v.busy && w.pending_confirm == v.pending_confirm
            &&& w.ctx_usage == v.ctx_usage && w.settings == v.settings && w.quit == v.quit
        }),
    decreases segs.len(),
{
    if segs.len() > 1 {
        lemma_text_leaves_the_rest(v, segs.drop_last());
    }
}

/// The note on tokens tells how many went in and came out, and where any were in the cache, how many.
pub proof fn law_tokens_are_told(v: AppView, input: u64, output: u64, hit: u64, todos: Seq<TodoView>)
    ensures
        ({
            let told = applied(v, UiEventView::Usage { input, output, cache_hit: hit }, todos).usage;
            let base = "输入 "@ + dec(input as nat) + " · 输出 "@ + dec(output as nat);
            &&& hit == 0 ==> told == Some(base)
            &&& hit > 0 ==> told == Some(base + " · 缓存命中 "@ + dec(hit as nat))
        }),
{
}

/// What the user entered is shown behind the transcript, as it is, and the transcript's end is seen.
pub proof fn law_input_is_echoed(v: AppView, text: Seq<char>)
    requires
        !v.text_open,
        v.md.table.len() == 0,
    ensures
        ({
            let w = echoed(v, text);
            &&& w.scroll == 0
            &&& w.transcript.len() == v.transcript.len() + 1
            &&& w.transcript.drop_last() == v.transcript
            &&& text_of(w.transcript.last()) == "› "@ + text
        }),
{
    assert(table_lines(v.md.table).len() == 0);
    let w = echoed(v, text);
    assert(w.transcript.drop_last() =~= v.transcript);
    let l = w.transcript.last();
    assert(l.drop_last() =~= seq![l[0]]);
    assert(seq![l[0]].drop_last() =~= Seq::empty());
    reveal_with_fuel(text_of, 3);
    assert(text_of(l) =~= "› "@ + text);
}

/// A field that is edited begins with what it holds, while the input waits; saved, it shows what it
/// then holds, the configuration is to take effect, and the input is back.
pub proof fn law_edit_of_a_field(v: AppView, c: ConfigView)
    requires
        v.settings is Some,
        v.input.len() <= usize::MAX,
    ensures
        ({
            let (s, p) = v.settings->0;
            let a = edit_begun(v);
            let b = edit_finished(a, Ok(c));
            &&& a.input == field_text(s, p.selected as int, p.field_sel as int)
            &&& a.settings_edit && (a.settings->0).1.editing
            &&& !b.settings_edit && !(b.settings->0).1.editing
            &&& b.input == v.input && b.cursor == v.input.len() && b.input_stash is None
            &&& b.settings_commit == Some(c)
            &&& (b.settings->0).0 == showing(s, c)
            &&& b.settings_msg is Some && (b.settings_msg->0).1
        }),
{
}

} // verus!
