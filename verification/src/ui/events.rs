//! What the line mode prints as a turn goes on: thinking, text, tools and their results, and a note
//! on tokens at the end.
use vstd::prelude::*;
use vstd::string::*;
use crate::agent::{ChildEvent, ChildEventKind, ChildEventView, KindView, ToolResultInfo};
use crate::json::{Json, JsonTree};
use crate::message::Usage;
use crate::provider::{EventView, ProviderEvent};
use crate::text::{
    at_most, cat2, cat3, cat4, cat5, char_count, dec, dec_text, first_chars, first_line, head_line,
    lemma_trim_end_shape, lemma_trim_start_shape, same, to_chars, trim, trim_start, trimmed,
};
use crate::ui::markdown::{fed, flushed, fresh, MarkdownStream, StreamView};
use crate::ui::theme::{accent, styled, ACCENT, CLEAR_LINE, DIM, ERROR, RESET, THINKING};
use crate::ui::width::held;

verus! {

// ---- summaries ----

/// The text that stands under `key`, or `missing`.
pub open spec fn text_or(input: JsonTree, key: Seq<char>, missing: Seq<char>) -> Seq<char> {
    match input.text_of(key) {
        Some(s) => s,
        None => missing,
    }
}

/// What says most of a call.
pub open spec fn gist(name: Seq<char>, input: JsonTree) -> Seq<char> {
    if name == "bash_exec"@ {
        text_or(input, "command"@, "<未知命令>"@)
    } else if name == "file_read"@ || name == "file_edit"@ {
        text_or(input, "path"@, "<未知路径>"@)
    } else if name == "grep_search"@ {
        text_or(input, "pattern"@, "<未知模式>"@)
    } else if name == "todo_write"@ {
        "更新待办清单"@
    } else if name == "spawn_subagent"@ {
        text_or(input, "task"@, "<未知任务>"@)
    } else {
        Seq::empty()
    }
}

/// How many characters of a call are shown.
pub const SUMMARY_CHARS: usize = 80;

/// A text in one line: what breaks a line is a blank.
pub open spec fn one_line(s: Seq<char>) -> Seq<char> {
    s.map_values(
        |c: char|
            if c == '\n' || c == '\r' {
                ' '
            } else {
                c
            },
    )
}

/// A call in one line of at most [`SUMMARY_CHARS`] characters, the last of which tells where more is
/// left out.
pub open spec fn summary(name: Seq<char>, input: JsonTree) -> Seq<char> {
    let raw = gist(name, input);
    let s = one_line(trim(raw));
    if raw.len() > SUMMARY_CHARS {
        first_chars(s, SUMMARY_CHARS - 1).push('…')
    } else {
        s
    }
}

/// Makes one line of a text; see [`one_line`].
fn in_one_line(s: &str) -> (r: String)
    ensures
        r@ == one_line(s@),
{
    let v = to_chars(s);
    let mut r = String::new();
    let mut i: usize = 0;
    while i < v.len()
        invariant
            i <= v@.len(),
            v@ == s@,
            r@ == one_line(s@).take(i as int),
        decreases v@.len() - i,
    {
        let c = v[i];
        let shown = if c == '\n' || c == '\r' {
            ' '
        } else {
            c
        };
        r.push(shown);
        i = i + 1;
        assert(r@ =~= one_line(s@).take(i as int));
    }
    assert(one_line(s@).take(i as int) =~= one_line(s@));
    r
}

fn get_text<'a>(input: &'a Json, key: &str, missing: &'a str) -> (r: &'a str)
    ensures
        r@ == text_or(input.tree(), key@, missing@),
{
    match input.text_of(key) {
        Some(s) => s,
        None => missing,
    }
}

/// A call in one line; see [`summary`].
pub fn summarize(name: &str, input: &Json) -> (r: String)
    ensures
        r@ == summary(name@, input.tree()),
        r@.len() <= SUMMARY_CHARS,
        !r@.contains('\n'),
{
    let raw = if same(name, "bash_exec") {
        get_text(input, "command", "<未知命令>")
    } else if same(name, "file_read") || same(name, "file_edit") {
        get_text(input, "path", "<未知路径>")
    } else if same(name, "grep_search") {
        get_text(input, "pattern", "<未知模式>")
    } else if same(name, "todo_write") {
        "更新待办清单"
    } else if same(name, "spawn_subagent") {
        get_text(input, "task", "<未知任务>")
    } else {
        proof {
            reveal_strlit("");
        }
        assert(""@ =~= Seq::empty());
        ""
    };
    let line = in_one_line(trimmed(raw).as_str());
    proof {
        lemma_trim_start_shape(raw@);
        lemma_trim_end_shape(trim_start(raw@));
    }
    if char_count(raw) > SUMMARY_CHARS {
        let mut s = at_most(line.as_str(), SUMMARY_CHARS - 1);
        s.push('…');
        s
    } else {
        line
    }
}

// ---- children ----

/// What is printed of a child; nothing at its end, which its parent's own result tells.
pub open spec fn child_line(e: ChildEventView) -> Option<Seq<char>> {
    let id = dec(e.child_id as nat);
    match e.kind {
        KindView::Started { task } => Some(
            "  "@ + DIM@ + "⤷ [子"@ + id + "] 派生: "@ + first_chars(
                first_line(task),
                SUMMARY_CHARS as int,
            ) + RESET@,
        ),
        KindView::ToolCall { name, input } => Some(
            "  "@ + DIM@ + "● [子"@ + id + "] "@ + name + "("@ + summary(name, input) + ")"@
                + RESET@,
        ),
        KindView::ToolResult { first_line, is_error, .. } => Some(
            "  "@ + (if is_error {
                ERROR@
            } else {
                DIM@
            }) + "⎿ [子"@ + id + "] "@ + first_line + RESET@,
        ),
        KindView::Finished { .. } => None,
    }
}

/// What is printed of a child; see [`child_line`].
pub fn render_child_event(ev: &ChildEvent) -> (r: Option<String>)
    ensures
        match r {
            Some(s) => child_line(ev@) == Some(s@),
            None => child_line(ev@) is None,
        },
{
    let id = dec_text(ev.child_id as u64);
    match &ev.kind {
        ChildEventKind::Started { task } => {
            let first = at_most(head_line(task.as_str()).as_str(), SUMMARY_CHARS);
            let mut r = cat5("  ", DIM, "⤷ [子", id.as_str(), "] 派生: ");
            r.push_str(first.as_str());
            r.push_str(RESET);
            Some(r)
        },
        ChildEventKind::ToolCall { name, input } => {
            let mut r = cat5("  ", DIM, "● [子", id.as_str(), "] ");
            r.push_str(name.as_str());
            r.push_str("(");
            r.push_str(summarize(name.as_str(), input).as_str());
            r.push_str(")");
            r.push_str(RESET);
            Some(r)
        },
        ChildEventKind::ToolResult { first_line, is_error, .. } => {
            let color = if *is_error {
                ERROR
            } else {
                DIM
            };
            let mut r = cat5("  ", color, "⎿ [子", id.as_str(), "] ");
            r.push_str(first_line.as_str());
            r.push_str(RESET);
            Some(r)
        },
        ChildEventKind::Finished { .. } => None,
    }
}

// ---- the renderer ----

/// What stands on the screen, and what is still to be printed.
#[derive(Debug)]
pub struct Renderer {
    pub in_thinking: bool,
    pub hint_visible: bool,
    pub pending_tools: usize,
    pub pending_usage: Option<Usage>,
    pub md: MarkdownStream,
}

/// What a renderer holds.
#[verifier::ext_equal]
pub struct RendererView {
    pub in_thinking: bool,
    pub hint_visible: bool,
    pub pending_tools: usize,
    pub pending_usage: Option<Usage>,
    pub md: StreamView,
}

/// Before anything else is printed, the hint is taken away.
pub open spec fn hint_end(v: RendererView) -> Seq<char> {
    if v.hint_visible {
        CLEAR_LINE@
    } else {
        Seq::empty()
    }
}

/// Before anything but more thinking is printed, the thinking's line ends.
pub open spec fn thinking_end(v: RendererView) -> Seq<char> {
    if v.in_thinking {
        "\n"@
    } else {
        Seq::empty()
    }
}

/// The hint and the thinking have ended.
pub open spec fn cleared(v: RendererView) -> RendererView {
    RendererView { in_thinking: false, hint_visible: false, ..v }
}

/// The note on tokens.
pub open spec fn usage_note(u: Usage) -> Seq<char> {
    let head = "\n"@ + DIM@ + "(输入 "@ + dec(u.input_tokens as nat) + " tokens · 输出 "@ + dec(
        u.output_tokens as nat,
    );
    if u.cache_hit_tokens > 0 {
        head + " tokens · 缓存命中 "@ + dec(u.cache_hit_tokens as nat) + ")"@ + RESET@ + "\n"@
    } else {
        head + " tokens)"@ + RESET@ + "\n"@
    }
}

/// An event of the model: what is printed, and what the renderer holds then. The note on tokens
/// waits for the results of the calls that were made.
pub open spec fn rendering(v: RendererView, e: EventView) -> (Seq<char>, RendererView) {
    let start = hint_end(v) + thinking_end(v);
    let c = cleared(v);
    match e {
        EventView::TextDelta(t) => (
            start + fed(v.md, t).0,
            RendererView { md: fed(v.md, t).1, ..c },
        ),
        EventView::ThinkingDelta(t) => (
            hint_end(v) + styled(THINKING@, t),
            RendererView { in_thinking: true, hint_visible: false, ..v },
        ),
        EventView::ToolUseStart { .. } => (
            start + flushed(v.md).0,
            RendererView { md: flushed(v.md).1, ..c },
        ),
        EventView::ToolUseDelta { .. } => (Seq::empty(), v),
        EventView::ToolUseComplete { name, input, .. } => (
            start + (ACCENT@ + "●"@ + RESET@ + " "@ + styled(
                ACCENT@,
                name + "("@ + summary(name, input) + ")"@,
            ) + "\n"@),
            RendererView { pending_tools: held(v.pending_tools + 1), ..c },
        ),
        EventView::Completed { usage } => {
            let w = RendererView { md: flushed(v.md).1, ..c };
            if v.pending_tools > 0 {
                (start + flushed(v.md).0, RendererView { pending_usage: Some(usage), ..w })
            } else {
                (start + flushed(v.md).0 + usage_note(usage), w)
            }
        },
    }
}

/// One call fewer is waited for.
pub open spec fn one_less(n: usize) -> usize {
    if n > 0 {
        (n - 1) as usize
    } else {
        0
    }
}

/// A tool has run: what is printed, and what the renderer holds then.
pub open spec fn result_shown(v: RendererView, first_line: Seq<char>, is_error: bool) -> (
    Seq<char>,
    RendererView,
) {
    let line = thinking_end(v) + ("  "@ + (if is_error {
        ERROR@
    } else {
        DIM@
    }) + "⎿ "@ + first_line + RESET@ + "\n"@);
    let w = RendererView {
        in_thinking: false,
        pending_tools: one_less(v.pending_tools),
        ..v
    };
    if w.pending_tools == 0 && v.pending_usage is Some {
        (
            line + usage_note(v.pending_usage->0),
            RendererView { pending_usage: None, ..w },
        )
    } else {
        (line, w)
    }
}

/// A child does something: what is printed, and what the renderer holds then.
pub open spec fn child_shown(v: RendererView, e: ChildEventView) -> (Seq<char>, RendererView) {
    match child_line(e) {
        Some(line) => (
            hint_end(v) + thinking_end(v) + flushed(v.md).0 + (line + "\n"@),
            RendererView { md: flushed(v.md).1, ..cleared(v) },
        ),
        None => (Seq::empty(), v),
    }
}

fn note(usage: &Usage) -> (r: String)
    ensures
        r@ == usage_note(*usage),
{
    let a = dec_text(usage.input_tokens);
    let b = dec_text(usage.output_tokens);
    let mut r = cat5("\n", DIM, "(输入 ", a.as_str(), " tokens · 输出 ");
    r.push_str(b.as_str());
    if usage.cache_hit_tokens > 0 {
        r.push_str(" tokens · 缓存命中 ");
        r.push_str(dec_text(usage.cache_hit_tokens).as_str());
        r.push_str(")");
    } else {
        r.push_str(" tokens)");
    }
    r.push_str(RESET);
    r.push_str("\n");
    r
}

impl Renderer {
    /// What the renderer holds.
    pub open spec fn at(&self) -> RendererView {
        RendererView {
            in_thinking: self.in_thinking,
            hint_visible: self.hint_visible,
            pending_tools: self.pending_tools,
            pending_usage: self.pending_usage,
            md: self.md.at(),
        }
    }

    pub fn new() -> (r: Renderer)
        ensures
            r.at() == (RendererView {
                in_thinking: false,
                hint_visible: false,
                pending_tools: 0,
                pending_usage: None,
                md: fresh(),
            }),
    {
        Renderer {
            in_thinking: false,
            hint_visible: false,
            pending_tools: 0,
            pending_usage: None,
            md: MarkdownStream::new(),
        }
    }

    fn break_thinking(&mut self) -> (r: String)
        ensures
            r@ == thinking_end(old(self).at()),
            final(self).at() == (RendererView { in_thinking: false, ..old(self).at() }),
    {
        if self.in_thinking {
            self.in_thinking = false;
            "\n".to_owned()
        } else {
            String::new()
        }
    }

    fn erase_hint(&mut self) -> (r: String)
        ensures
            r@ == hint_end(old(self).at()),
            final(self).at() == (RendererView { hint_visible: false, ..old(self).at() }),
    {
        if self.hint_visible {
            self.hint_visible = false;
            CLEAR_LINE.to_owned()
        } else {
            String::new()
        }
    }

    fn clear(&mut self) -> (r: String)
        ensures
            r@ == hint_end(old(self).at()) + thinking_end(old(self).at()),
            final(self).at() == cleared(old(self).at()),
    {
        let a = self.erase_hint();
        let b = self.break_thinking();
        cat2(a.as_str(), b.as_str())
    }

    /// A request is about to be made: gives the hint that is printed meanwhile.
    pub fn thinking_hint(&mut self) -> (r: String)
        ensures
            r@ == styled(DIM@, "✻ 思考中…"@),
            final(self).at() == (RendererView { hint_visible: true, ..old(self).at() }),
    {
        self.hint_visible = true;
        cat3(DIM, "✻ 思考中…", RESET)
    }

    /// Takes an event of the model; gives what is printed.
    pub fn render(&mut self, event: &ProviderEvent) -> (r: String)
        ensures
            (r@, final(self).at()) == rendering(old(self).at(), event@),
    {
        match event {
            ProviderEvent::TextDelta(t) => {
                let mut r = self.clear();
                r.push_str(self.md.feed(t.as_str()).as_str());
                r
            },
            ProviderEvent::ThinkingDelta(t) => {
                let mut r = self.erase_hint();
                self.in_thinking = true;
                r.push_str(cat3(THINKING, t.as_str(), RESET).as_str());
                r
            },
            ProviderEvent::ToolUseStart { .. } => {
                let mut r = self.clear();
                r.push_str(self.md.flush().as_str());
                r
            },
            ProviderEvent::ToolUseDelta { .. } => String::new(),
            ProviderEvent::ToolUseComplete { name, input, .. } => {
                let mut r = self.clear();
                if self.pending_tools < usize::MAX {
                    self.pending_tools = self.pending_tools + 1;
                }
                let s = summarize(name.as_str(), input);
                let call = cat4(name.as_str(), "(", s.as_str(), ")");
                let mut line = cat5(ACCENT, "●", RESET, " ", accent(call.as_str()).as_str());
                line.push_str("\n");
                r.push_str(line.as_str());
                r
            },
            ProviderEvent::Completed { usage } => {
                let mut r = self.clear();
                r.push_str(self.md.flush().as_str());
                if self.pending_tools > 0 {
                    self.pending_usage = Some(*usage);
                } else {
                    r.push_str(note(usage).as_str());
                }
                r
            },
        }
    }

    /// A tool has run; gives what is printed.
    pub fn tool_result(&mut self, info: &ToolResultInfo) -> (r: String)
        ensures
            (r@, final(self).at()) == result_shown(
                old(self).at(),
                info.first_line@,
                info.is_error,
            ),
    {
        let mut r = self.break_thinking();
        let color = if info.is_error {
            ERROR
        } else {
            DIM
        };
        let mut line = cat5("  ", color, "⎿ ", info.first_line.as_str(), RESET);
        line.push_str("\n");
        r.push_str(line.as_str());
        if self.pending_tools > 0 {
            self.pending_tools = self.pending_tools - 1;
        }
        if self.pending_tools == 0 {
            if let Some(usage) = self.pending_usage {
                self.pending_usage = None;
                r.push_str(note(&usage).as_str());
            }
        }
        r
    }

    /// A child does something; gives what is printed.
    pub fn child_event(&mut self, ev: &ChildEvent) -> (r: String)
        ensures
            (r@, final(self).at()) == child_shown(old(self).at(), ev@),
    {
        match render_child_event(ev) {
            None => String::new(),
            Some(line) => {
                let mut r = self.clear();
                r.push_str(self.md.flush().as_str());
                r.push_str(cat2(line.as_str(), "\n").as_str());
                r
            },
        }
    }
}

impl Default for Renderer {
    fn default() -> (r: Self)
        ensures
            r.at() == (RendererView {
                in_thinking: false,
                hint_visible: false,
                pending_tools: 0,
                pending_usage: None,
                md: fresh(),
            }),
    {
        Renderer::new()
    }
}

// ---- laws ----

/// What a child does leaves its parent's count of calls, and the note that waits for them, alone.
pub proof fn law_children_do_not_disturb(v: RendererView, e: ChildEventView)
    ensures
        child_shown(v, e).1.pending_tools == v.pending_tools,
        child_shown(v, e).1.pending_usage == v.pending_usage,
{
}

/// The note on tokens comes after the results: a reply that made calls prints none, and it is
/// printed with the result of the last call that is waited for, and then no more.
pub proof fn law_note_follows_the_results(
    v: RendererView,
    usage: Usage,
    first_line: Seq<char>,
    is_error: bool,
)
    requires
        v.pending_tools > 0,
    ensures
        ({
            let w = rendering(v, EventView::Completed { usage }).1;
            let (text, after) = result_shown(w, first_line, is_error);
            &&& w.pending_usage == Some(usage)
            &&& v.pending_tools > 1 ==> after.pending_usage == Some(usage)
            &&& v.pending_tools == 1 ==> usage_note(usage).is_suffix_of(text)
                && after.pending_usage is None
        }),
{
    let w = rendering(v, EventView::Completed { usage }).1;
    let (text, after) = result_shown(w, first_line, is_error);
    if v.pending_tools == 1 {
        let n = usage_note(usage).len();
        assert(text.subrange(text.len() - n, text.len() as int) =~= usage_note(usage));
    }
}


/// A call is told in one line of at most eighty characters: what it is about where that is short, and
/// else its beginning with a mark that there is more.
pub proof fn law_calls_are_told_in_one_line(name: Seq<char>, input: JsonTree, t: Seq<char>)
    ensures
        summary(name, input).len() <= 80,
        forall|i: int|
            0 <= i < summary(name, input).len() ==> #[trigger] summary(name, input)[i] != '\n'
                && summary(name, input)[i] != '\r',
        is_about(name, input, t) && one_trimmed_line(t) && t.len() <= 80 ==> summary(name, input) == t,
        is_about(name, input, t) && one_trimmed_line(t) && t.len() > 80 ==> summary(name, input)
            == t.take(79) + seq!['…'],
{
    let raw = gist(name, input);
    lemma_trim_start_shape(raw);
    lemma_trim_end_shape(trim_start(raw));
    let s = one_line(trim(raw));
    assert forall|i: int| 0 <= i < summary(name, input).len() implies #[trigger] summary(
        name,
        input,
    )[i] != '\n' && summary(name, input)[i] != '\r' by {}
    if is_about(name, input, t) {
        reveal_strlit("bash_exec");
        reveal_strlit("file_read");
        reveal_strlit("file_edit");
        reveal_strlit("grep_search");
        reveal_strlit("todo_write");
        reveal_strlit("spawn_subagent");
        assert("bash_exec"@[0] == 'b' && "file_read"@[5] == 'r' && "file_edit"@[5] == 'e');
        assert("file_read"@[0] == 'f' && "file_edit"@[0] == 'f' && "grep_search"@[0] == 'g');
        assert("todo_write"@[0] == 't' && "spawn_subagent"@[0] == 's');
        assert(gist(name, input) == t);
        if one_trimmed_line(t) {
            assert(one_line(t) =~= t);
            if t.len() > 80 {
                assert(t.take(79).push('…') =~= t.take(79) + seq!['…']);
            }
        }
    }
}

/// Whether `t` is what a call is about: the command that is run, the file, the pattern that is looked
/// for, or the task that is handed on.
pub open spec fn is_about(name: Seq<char>, input: JsonTree, t: Seq<char>) -> bool {
    let told = Some(JsonTree::Text(t));
    ||| name == "bash_exec"@ && input.get("command"@) == told
    ||| name == "file_read"@ && input.get("path"@) == told
    ||| name == "file_edit"@ && input.get("path"@) == told
    ||| name == "grep_search"@ && input.get("pattern"@) == told
    ||| name == "spawn_subagent"@ && input.get("task"@) == told
}

/// One line without white space at its ends.
pub open spec fn one_trimmed_line(t: Seq<char>) -> bool {
    &&& trim(t) == t
    &&& forall|i: int| 0 <= i < t.len() ==> #[trigger] t[i] != '\n' && t[i] != '\r'
}

/// Whatever is printed first takes the hint away and, unless it is thinking, ends the line on which
/// the model thought; thinking is printed as it comes.
pub proof fn law_hint_and_thinking_end(v: RendererView, e: EventView)
    requires
        !(e is ToolUseDelta),
    ensures
        ({
            let (text, w) = rendering(v, e);
            let hint = if v.hint_visible {
                CLEAR_LINE@
            } else {
                Seq::empty()
            };
            &&& !w.hint_visible
            &&& w.in_thinking == (e is ThinkingDelta)
            &&& hint.is_prefix_of(text)
            &&& e is ThinkingDelta ==> text == hint + THINKING@ + e->ThinkingDelta_0 + RESET@ && w.md
                == v.md
            &&& !(e is ThinkingDelta) && v.in_thinking ==> (hint + "\n"@).is_prefix_of(text)
        }),
{
    let (text, w) = rendering(v, e);
    let hint = hint_end(v);
    assert(hint =~= text.take(hint.len() as int));
    if e is ThinkingDelta {
        assert(text =~= hint + THINKING@ + e->ThinkingDelta_0 + RESET@);
    } else if v.in_thinking {
        let start = hint + "\n"@;
        assert(start =~= text.take(start.len() as int));
    }
}

/// Where neither a hint nor thinking is in the way, text is printed as it is rendered, and a call on
/// a line of its own; the piece of a call prints nothing, and each call is waited for once.
pub proof fn law_events_are_printed(v: RendererView, e: EventView)
    requires
        !v.hint_visible,
        !v.in_thinking,
    ensures
        ({
            let (text, w) = rendering(v, e);
            &&& e is TextDelta ==> text == fed(v.md, e->TextDelta_0).0 && w.md == fed(
                v.md,
                e->TextDelta_0,
            ).1
            &&& e is ToolUseStart ==> text == flushed(v.md).0 && w.md.buf.len() == 0
            &&& e is ToolUseDelta ==> text.len() == 0 && w == v
            &&& (e matches EventView::ToolUseComplete { id, name, input } ==> text == ACCENT@ + "●"@
                + RESET@ + " "@ + ACCENT@ + name + "("@ + summary(name, input) + ")"@ + RESET@ + "\n"@)
            &&& e is ToolUseComplete && v.pending_tools < usize::MAX ==> w.pending_tools
                == v.pending_tools + 1
            &&& !(e is ToolUseComplete) ==> w.pending_tools == v.pending_tools
            &&& e is Completed && v.pending_tools == 0 ==> text == flushed(v.md).0 + usage_note(
                e->Completed_usage,
            )
            &&& e is Completed && v.pending_tools > 0 ==> text == flushed(v.md).0 && w.pending_usage
                == Some(e->Completed_usage)
            &&& !(e is Completed) ==> w.pending_usage == v.pending_usage
        }),
{
    let (text, w) = rendering(v, e);
    match e {
        EventView::TextDelta(t) => {
            assert(text =~= fed(v.md, t).0);
        },
        EventView::ToolUseStart { .. } => {
            assert(text =~= flushed(v.md).0);
        },
        EventView::ToolUseComplete { id, name, input } => {
            assert(text =~= ACCENT@ + "●"@ + RESET@ + " "@ + ACCENT@ + name + "("@ + summary(
                name,
                input,
            ) + ")"@ + RESET@ + "\n"@);
        },
        EventView::Completed { usage } => {
            if v.pending_tools == 0 {
                assert(text =~= flushed(v.md).0 + usage_note(usage));
            } else {
                assert(text =~= flushed(v.md).0);
            }
        },
        _ => {},
    }
}

/// The result of a call is printed with its first line, in the colour of an error where it is one,
/// and one call fewer is waited for.
pub proof fn law_results_are_printed(v: RendererView, first_line: Seq<char>, is_error: bool)
    requires
        !v.in_thinking,
        v.pending_usage is None,
    ensures
        ({
            let (text, w) = result_shown(v, first_line, is_error);
            &&& is_error ==> text == "  "@ + ERROR@ + "⎿ "@ + first_line + RESET@ + "\n"@
            &&& !is_error ==> text == "  "@ + DIM@ + "⎿ "@ + first_line + RESET@ + "\n"@
            &&& v.pending_tools > 0 ==> w.pending_tools == v.pending_tools - 1
            &&& v.pending_tools == 0 ==> w.pending_tools == 0
            &&& w.md == v.md
        }),
{
    let (text, w) = result_shown(v, first_line, is_error);
    assert(is_error ==> text =~= "  "@ + ERROR@ + "⎿ "@ + first_line + RESET@ + "\n"@);
    assert(!is_error ==> text =~= "  "@ + DIM@ + "⎿ "@ + first_line + RESET@ + "\n"@);
}

} // verus!
