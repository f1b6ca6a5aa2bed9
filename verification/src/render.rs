//! The plain way of printing a turn: thinking apart from text, a line for each tool, and a note on
//! tokens at the end.
use vstd::prelude::*;
use vstd::string::*;
use crate::message::Usage;
use crate::provider::{EventView, ProviderEvent};
use crate::text::{cat3, cat4, dec, dec_text};

verus! {

/// Whether thinking is being printed.
#[derive(Debug)]
pub struct Renderer {
    in_thinking: bool,
}

/// What ends the line of the thinking, where there is one.
pub open spec fn line_end(in_thinking: bool) -> Seq<char> {
    if in_thinking {
        "\n"@
    } else {
        Seq::empty()
    }
}

/// The note on tokens. What the cache saved is told only where it saved anything.
pub open spec fn tokens_note(u: Usage) -> Seq<char> {
    let head = "\n\x1b[2m(输入 "@ + dec(u.input_tokens as nat) + " tokens · 输出 "@ + dec(
        u.output_tokens as nat,
    );
    if u.cache_hit_tokens > 0 {
        head + " tokens · 缓存命中 "@ + dec(u.cache_hit_tokens as nat) + ")\x1b[0m\n"@
    } else {
        head + " tokens)\x1b[0m\n"@
    }
}

/// What an event prints, and whether thinking is being printed then.
pub open spec fn printed(in_thinking: bool, e: EventView) -> (Seq<char>, bool) {
    match e {
        EventView::TextDelta(t) => (line_end(in_thinking) + t, false),
        EventView::ThinkingDelta(t) => ("\x1b[2;3m"@ + t + "\x1b[0m"@, true),
        EventView::ToolUseStart { name, .. } => (
            line_end(in_thinking) + "\n\x1b[36m▸ 正在执行: "@ + name + "\x1b[0m\n"@,
            false,
        ),
        EventView::ToolUseDelta { .. } => (Seq::empty(), in_thinking),
        EventView::ToolUseComplete { .. } => (Seq::empty(), in_thinking),
        EventView::Completed { usage } => (line_end(in_thinking) + tokens_note(usage), false),
    }
}

fn note(usage: &Usage) -> (r: String)
    ensures
        r@ == tokens_note(*usage),
{
    let a = dec_text(usage.input_tokens);
    let b = dec_text(usage.output_tokens);
    let mut r = cat4("\n\x1b[2m(输入 ", a.as_str(), " tokens · 输出 ", b.as_str());
    if usage.cache_hit_tokens > 0 {
        r.push_str(" tokens · 缓存命中 ");
        r.push_str(dec_text(usage.cache_hit_tokens).as_str());
        r.push_str(")\x1b[0m\n");
    } else {
        r.push_str(" tokens)\x1b[0m\n");
    }
    r
}

impl Renderer {
    pub closed spec fn in_thinking(&self) -> bool {
        self.in_thinking
    }

    pub fn new() -> (r: Renderer)
        ensures
            !r.in_thinking(),
    {
        Renderer { in_thinking: false }
    }

    fn end_thinking(&mut self) -> (r: String)
        ensures
            r@ == line_end(old(self).in_thinking()),
            !final(self).in_thinking(),
    {
        if self.in_thinking {
            self.in_thinking = false;
            "\n".to_owned()
        } else {
            String::new()
        }
    }

    /// Takes an event; gives what is printed.
    pub fn render(&mut self, event: &ProviderEvent) -> (r: String)
        ensures
            (r@, final(self).in_thinking()) == printed(old(self).in_thinking(), event@),
    {
        match event {
            ProviderEvent::TextDelta(t) => {
                let mut r = self.end_thinking();
                r.push_str(t.as_str());
                r
            },
            ProviderEvent::ThinkingDelta(t) => {
                self.in_thinking = true;
                cat3("\x1b[2;3m", t.as_str(), "\x1b[0m")
            },
            ProviderEvent::ToolUseStart { name, .. } => {
                let end = self.end_thinking();
                cat4(end.as_str(), "\n\x1b[36m▸ 正在执行: ", name.as_str(), "\x1b[0m\n")
            },
            ProviderEvent::ToolUseDelta { .. } => String::new(),
            ProviderEvent::ToolUseComplete { .. } => String::new(),
            ProviderEvent::Completed { usage } => {
                let mut r = self.end_thinking();
                r.push_str(note(usage).as_str());
                r
            },
        }
    }
}

impl Default for Renderer {
    fn default() -> (r: Self)
        ensures
            !r.in_thinking(),
    {
        Renderer::new()
    }
}


/// Plain printing: text as it is, thinking between the codes that dim it, the name of a call that
/// begins, and how many tokens went in, came out and were in the cache. What follows thinking begins
/// on a new line, and the pieces of a call print nothing.
pub proof fn law_events_are_printed(e: EventView)
    ensures
        (e matches EventView::TextDelta(t) ==> printed(false, e) == (t, false) && printed(true, e) == (
            seq!['\n'] + t,
            false,
        )),
        (e matches EventView::ThinkingDelta(t) ==> forall|b: bool| #[trigger]
            printed(b, e) == ("\x1b[2;3m"@ + t + "\x1b[0m"@, true)),
        (e matches EventView::ToolUseStart { id, name } ==> printed(false, e) == (
            "\n\x1b[36m▸ 正在执行: "@ + name + "\x1b[0m\n"@,
            false,
        )),
        e is ToolUseDelta || e is ToolUseComplete ==> forall|b: bool| #[trigger]
            printed(b, e) == (Seq::<char>::empty(), b),
        (e matches EventView::Completed { usage } ==> {
            let base = "\n\x1b[2m(输入 "@ + dec(usage.input_tokens as nat) + " tokens · 输出 "@ + dec(
                usage.output_tokens as nat,
            );
            &&& usage.cache_hit_tokens == 0 ==> printed(false, e) == (
                base + " tokens)\x1b[0m\n"@,
                false,
            )
            &&& usage.cache_hit_tokens > 0 ==> printed(false, e) == (
                base + " tokens · 缓存命中 "@ + dec(usage.cache_hit_tokens as nat) + ")\x1b[0m\n"@,
                false,
            )
        }),
        !(e is ThinkingDelta) && !(e is ToolUseDelta) && !(e is ToolUseComplete) ==> printed(true, e).0
            == seq!['\n'] + printed(false, e).0,
{
    reveal_strlit("\n");
    assert("\n"@ =~= seq!['\n']);
    let plain = printed(false, e).0;
    match e {
        EventView::TextDelta(t) => {
            assert(plain =~= t);
        },
        EventView::ToolUseStart { id, name } => {
            assert(plain =~= "\n\x1b[36m▸ 正在执行: "@ + name + "\x1b[0m\n"@);
        },
        EventView::Completed { usage } => {
            assert(plain =~= tokens_note(usage));
        },
        _ => {},
    }
    if !(e is ThinkingDelta) && !(e is ToolUseDelta) && !(e is ToolUseComplete) {
        assert(printed(true, e).0 =~= seq!['\n'] + plain);
    }
}

} // verus!
