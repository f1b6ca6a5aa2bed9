//! The agent: one conversation, turn by turn.
//!
//! A turn is driven from outside, which alone can talk to a model and run tools. Each function here
//! takes what happened and says what follows:
//!
//! 1. [`AgentLoop::compression_request`] may ask for a summary, whose outcome goes to
//!    [`AgentLoop::finish_compression`];
//! 2. [`AgentLoop::start_turn`] takes the user's input;
//! 3. [`AgentLoop::next_request`] makes the request, [`AgentLoop::take_event`] takes the reply piece
//!    by piece, and [`AgentLoop::end_reply`] says whether the turn is over or calls are to be run;
//! 4. [`AgentLoop::take_results`] takes what came of the calls, and step 3 follows again.
//!
//! A turn that is broken off goes through [`AgentLoop::recover_interrupt`] before the next.
use vstd::prelude::*;
use vstd::string::*;
use crate::context::compress::{
    cut_index, estimate_tokens, estimated, find_cut_index, law_cut_is_a_turn,
    law_cut_is_before_the_last_task, opens_turn, summary_asked, summary_request, user_speaks,
};
use crate::error::{ErrorView, LexError, Result};
use crate::json::{Json, JsonTree};
use crate::message::{
    block_views, clone_messages, message_views, result_view, user_message, Block, BlockView, Message,
    MessageView, Role,
};
use crate::provider::cache::{cut, prepared, CacheView, ImplicitPrefixCacheStrategy};
use crate::provider::replies::{told_text, told_thinking, whole_calls};
use crate::provider::{EventView, ProviderEvent, RequestContext, RequestView};
use crate::security::rules::{RulesView, SecurityGuard};
use crate::text::{cat2, cat3, cat4, dec, dec_text, first_line, head_line, opt_text};
use crate::tools::{definition_of, law_tool_is_found_by_name, tool_named, ToolRegistry, ToolView};

pub mod subagent;

verus! {

/// Where a turn is.
#[derive(Debug, Clone, Copy, PartialEq, Eq, Structural)]
pub enum State {
    AwaitingInput,
    AssemblingRequest,
    AwaitingModel,
    ExecutingTools,
}

/// A call that a reply makes.
#[derive(Debug)]
pub struct ToolCall {
    pub id: String,
    pub name: String,
    pub input: Json,
}

/// What a call holds.
pub struct CallView {
    pub id: Seq<char>,
    pub name: Seq<char>,
    pub input: JsonTree,
}

impl View for ToolCall {
    type V = CallView;

    open spec fn view(&self) -> CallView {
        CallView { id: self.id@, name: self.name@, input: self.input.tree() }
    }
}

/// The views of a list of calls.
pub open spec fn call_views(v: Seq<ToolCall>) -> Seq<CallView> {
    Seq::new(v.len(), |i: int| v[i]@)
}

/// One conversation.
#[derive(Debug)]
pub struct AgentLoop {
    pub registry: ToolRegistry,
    pub security: SecurityGuard,
    pub system: String,
    pub history: Vec<Message>,
    /// How many requests a turn may make.
    pub max_turns: u32,
    /// The watch on the cached prefix, where there is one.
    pub cache_strategy: Option<ImplicitPrefixCacheStrategy>,
    /// The limit on context tokens; without one nothing is compressed.
    pub context_limit: Option<u32>,
    /// A summary that the next user message begins with.
    pub pending_summary: Option<String>,
    /// Whether the conversation was compressed already.
    pub compress_attempted: bool,
    /// Where the turn is.
    pub state: State,
    /// How many requests the turn has made.
    pub turns: u32,
    /// The text of the reply so far, where it has any.
    pub text: Option<String>,
    /// The thinking of the reply so far, where it has any.
    pub thinking: Option<String>,
    /// The calls of the reply so far.
    pub calls: Vec<ToolCall>,
}

/// What a conversation holds.
#[verifier::ext_equal]
pub struct AgentView {
    pub tools: Seq<ToolView>,
    pub rules: RulesView,
    pub sensitive_read: bool,
    pub system: Seq<char>,
    pub history: Seq<MessageView>,
    pub max_turns: u32,
    pub cache: Option<CacheView>,
    pub context_limit: Option<u32>,
    pub pending_summary: Option<Seq<char>>,
    pub compress_attempted: bool,
    pub state: State,
    pub turns: u32,
    pub text: Option<Seq<char>>,
    pub thinking: Option<Seq<char>>,
    pub calls: Seq<CallView>,
}

impl View for AgentLoop {
    type V = AgentView;

    open spec fn view(&self) -> AgentView {
        AgentView {
            tools: self.registry.tools(),
            rules: self.security.table(),
            sensitive_read: self.security.sensitive_read(),
            system: self.system@,
            history: message_views(self.history@),
            max_turns: self.max_turns,
            cache: match self.cache_strategy {
                Some(c) => Some(c.state()),
                None => None,
            },
            context_limit: self.context_limit,
            pending_summary: opt_text(self.pending_summary),
            compress_attempted: self.compress_attempted,
            state: self.state,
            turns: self.turns,
            text: opt_text(self.text),
            thinking: opt_text(self.thinking),
            calls: call_views(self.calls@),
        }
    }
}

// ---- compression ----

/// Whether a conversation has grown past four fifths of its limit.
pub open spec fn over_threshold(a: AgentView) -> bool {
    a.context_limit is Some && estimated(a.history) > (a.context_limit->0 as int) * 8 / 10
}

/// Where a conversation is to be cut for compression: once in a session, when it has grown past the
/// threshold, and only where there is a turn to cut before.
pub open spec fn compression_cut(a: AgentView) -> Option<int> {
    if !a.compress_attempted && over_threshold(a) {
        cut_index(a.history)
    } else {
        None
    }
}

/// The conversation after its start was summed up.
pub open spec fn compressed(a: AgentView, cut_at: int, summary: Seq<char>) -> AgentView {
    AgentView {
        history: a.history.skip(cut_at),
        compress_attempted: true,
        pending_summary: Some(summary),
        cache: match a.cache {
            Some(c) => Some(cut(c)),
            None => None,
        },
        ..a
    }
}

// ---- a turn ----

/// The user's input as it goes into the history: behind the summary, where one waits.
pub open spec fn merged_input(summary: Option<Seq<char>>, input: Seq<char>) -> Seq<char> {
    match summary {
        Some(s) => "[前期对话摘要]\n"@ + s + "\n\n[本轮任务]\n"@ + input,
        None => input,
    }
}

/// A turn begins.
pub open spec fn started(a: AgentView, input: Seq<char>) -> AgentView {
    AgentView {
        history: a.history.push(user_message(merged_input(a.pending_summary, input))),
        pending_summary: None,
        sensitive_read: false,
        turns: 0,
        state: State::AssemblingRequest,
        text: None,
        thinking: None,
        calls: Seq::empty(),
        ..a
    }
}

/// The request that a conversation makes.
pub open spec fn request_of(a: AgentView) -> RequestView {
    RequestView {
        system: a.system,
        tools: a.tools.map_values(|t: ToolView| definition_of(t)),
        messages: a.history,
    }
}

/// A request is made.
pub open spec fn requesting(a: AgentView) -> AgentView {
    AgentView {
        turns: (a.turns + 1) as u32,
        state: State::AwaitingModel,
        cache: match a.cache {
            Some(c) => Some(prepared(c, request_of(a))),
            None => None,
        },
        text: None,
        thinking: None,
        calls: Seq::empty(),
        ..a
    }
}

/// How a turn that makes too many requests is told.
pub open spec fn too_many(max_turns: u32) -> Seq<char> {
    "已达到单轮任务最大循环次数 "@ + dec(max_turns as nat) + "(疑似模型反复调用工具未收敛)"@
}

/// `t` behind what came before.
pub open spec fn grown(before: Option<Seq<char>>, t: Seq<char>) -> Option<Seq<char>> {
    match before {
        Some(b) => Some(b + t),
        None => Some(t),
    }
}

/// A piece of the reply arrives.
pub open spec fn heard(a: AgentView, e: EventView) -> AgentView {
    match e {
        EventView::TextDelta(t) => AgentView { text: grown(a.text, t), ..a },
        EventView::ThinkingDelta(t) => AgentView { thinking: grown(a.thinking, t), ..a },
        EventView::ToolUseComplete { id, name, input } => AgentView {
            calls: a.calls.push(CallView { id, name, input }),
            ..a
        },
        _ => a,
    }
}

/// The blocks of an assistant message: its thinking, its text, its calls.
pub open spec fn reply_blocks(
    thinking: Option<Seq<char>>,
    text: Option<Seq<char>>,
    calls: Seq<CallView>,
) -> Seq<BlockView> {
    let a = match thinking {
        Some(t) => seq![BlockView::Thinking { reasoning_content: t }],
        None => Seq::empty(),
    };
    let b = match text {
        Some(t) => a.push(BlockView::Text { text: t }),
        None => a,
    };
    b + calls.map_values(
        |c: CallView| BlockView::ToolUse { id: c.id, name: c.name, input: c.input },
    )
}

/// The text that a turn ends with.
pub open spec fn final_text(a: AgentView) -> Seq<char> {
    match a.text {
        Some(t) => t,
        None => Seq::empty(),
    }
}

/// The reply is complete: it goes into the history. Without calls the turn is over, and the reply
/// is a text though it may be empty.
pub open spec fn replied(a: AgentView) -> AgentView {
    AgentView {
        history: a.history.push(
            MessageView {
                role: Role::Assistant,
                content: if a.calls.len() > 0 {
                    reply_blocks(a.thinking, a.text, a.calls)
                } else {
                    reply_blocks(a.thinking, Some(final_text(a)), Seq::empty())
                },
            },
        ),
        state: if a.calls.len() > 0 {
            State::ExecutingTools
        } else {
            State::AwaitingInput
        },
        text: None,
        thinking: None,
        calls: Seq::empty(),
        ..a
    }
}

/// Whether a call may run beside others.
pub open spec fn may_run_beside(tools: Seq<ToolView>, c: CallView) -> bool {
    match tool_named(tools, c.name) {
        Some(t) => t.parallel_safe,
        None => false,
    }
}

/// Whether calls run at once: there is more than one, and each may run beside others.
pub open spec fn run_at_once(tools: Seq<ToolView>, calls: Seq<CallView>) -> bool {
    calls.len() > 1 && forall|i: int|
        0 <= i < calls.len() ==> may_run_beside(tools, #[trigger] calls[i])
}

/// What follows a reply.
#[derive(Debug)]
pub enum TurnStep {
    /// The turn is over; this is its answer.
    Reply(String),
    /// These calls are to be run, at once or one after the other.
    Run { calls: Vec<ToolCall>, at_once: bool },
}

/// The answers to the first `n` calls: each call with the outcome in its place.
pub open spec fn answers(calls: Seq<CallView>, outcomes: Seq<BlockView>, n: int) -> Seq<BlockView>
    decreases n,
{
    if n <= 0 {
        Seq::empty()
    } else {
        let before = answers(calls, outcomes, n - 1);
        match outcomes[n - 1] {
            BlockView::ToolResult { content, is_error, .. } => before.push(
                BlockView::ToolResult { tool_use_id: calls[n - 1].id, content, is_error },
            ),
            _ => before,
        }
    }
}

/// The answers to calls, as many as have an outcome.
pub open spec fn all_answers(calls: Seq<CallView>, outcomes: Seq<BlockView>) -> Seq<BlockView> {
    answers(
        calls,
        outcomes,
        if calls.len() <= outcomes.len() {
            calls.len() as int
        } else {
            outcomes.len() as int
        },
    )
}

/// The outcomes of calls arrive: one message answers them all.
pub open spec fn results_taken(
    a: AgentView,
    calls: Seq<CallView>,
    outcomes: Seq<BlockView>,
) -> AgentView {
    AgentView {
        history: a.history.push(
            MessageView { role: Role::User, content: all_answers(calls, outcomes) },
        ),
        state: State::AssemblingRequest,
        ..a
    }
}

// ---- an interruption ----

/// What is told where the user wishes to compress and there is nothing to compress.
pub const NOTHING_TO_COMPACT: &'static str = "当前没有可压缩的历史";

/// What is told where the user wished to compress and it was done.
pub const COMPACTED: &'static str = "历史已压缩,摘要将并入下一条消息";

/// What stands in the place of an outcome, and of a reply, that an interruption cut off.
pub const INTERRUPTED: &'static str = "本轮已被用户中断";

/// The ids of the calls among blocks.
pub open spec fn calls_made(bs: Seq<BlockView>) -> Seq<Seq<char>>
    decreases bs.len(),
{
    if bs.len() == 0 {
        Seq::empty()
    } else {
        let before = calls_made(bs.drop_last());
        match bs.last() {
            BlockView::ToolUse { id, .. } => before.push(id),
            _ => before,
        }
    }
}

/// The ids of the calls that blocks answer.
pub open spec fn calls_answered(bs: Seq<BlockView>) -> Seq<Seq<char>>
    decreases bs.len(),
{
    if bs.len() == 0 {
        Seq::empty()
    } else {
        let before = calls_answered(bs.drop_last());
        match bs.last() {
            BlockView::ToolResult { tool_use_id, .. } => before.push(tool_use_id),
            _ => before,
        }
    }
}

/// The answer to calls that never ran to their end.
pub open spec fn cut_off(ids: Seq<Seq<char>>) -> MessageView {
    MessageView {
        role: Role::User,
        content: ids.map_values(
            |id: Seq<char>|
                BlockView::ToolResult { tool_use_id: id, content: INTERRUPTED@, is_error: true },
        ),
    }
}

/// The conversation with its last calls answered, where they were not.
pub open spec fn calls_settled(h: Seq<MessageView>) -> Seq<MessageView> {
    if h.len() > 0 && h.last().role == Role::Assistant && calls_made(h.last().content).len() > 0 {
        h.push(cut_off(calls_made(h.last().content)))
    } else {
        h
    }
}

/// The conversation with a reply at its end, where the user spoke last.
pub open spec fn reply_settled(h: Seq<MessageView>) -> Seq<MessageView> {
    if h.len() > 0 && h.last().role == Role::User {
        h.push(
            MessageView {
                role: Role::Assistant,
                content: seq![BlockView::Text { text: INTERRUPTED@ }],
            },
        )
    } else {
        h
    }
}

/// The turn is broken off: calls that were not answered are, the user's last message has a reply,
/// and the user can go on.
pub open spec fn recovered(a: AgentView) -> AgentView {
    AgentView {
        history: reply_settled(calls_settled(a.history)),
        state: State::AwaitingInput,
        text: None,
        thinking: None,
        calls: Seq::empty(),
        ..a
    }
}

spec fn result_views(v: Seq<(&str, String, bool)>) -> Seq<BlockView> {
    Seq::new(v.len(), |i: int| result_view(v[i]))
}

fn grow(before: Option<String>, t: &str) -> (r: Option<String>)
    ensures
        opt_text(r) == grown(opt_text(before), t@),
{
    match before {
        Some(b) => Some(cat2(b.as_str(), t)),
        None => Some(t.to_owned()),
    }
}

fn push_block(v: &mut Vec<Block>, b: Block)
    ensures
        block_views(final(v)@) == block_views(old(v)@).push(b@),
{
    v.push(b);
    assert(block_views(v@) =~= block_views(old(v)@).push(b@));
}

fn push_history(h: &mut Vec<Message>, m: Message)
    ensures
        message_views(final(h)@) == message_views(old(h)@).push(m@),
{
    h.push(m);
    assert(message_views(h@) =~= message_views(old(h)@).push(m@));
}

fn make_blocks(thinking: &Option<String>, text: &Option<String>, calls: &Vec<ToolCall>) -> (r: Vec<
    Block,
>)
    ensures
        block_views(r@) == reply_blocks(opt_text(*thinking), opt_text(*text), call_views(calls@)),
{
    let mut r: Vec<Block> = Vec::new();
    assert(block_views(r@) =~= Seq::empty());
    if let Some(t) = thinking {
        push_block(&mut r, Block::Thinking { reasoning_content: t.clone() });
        assert(block_views(r@) =~= seq![BlockView::Thinking { reasoning_content: t@ }]);
    }
    if let Some(t) = text {
        push_block(&mut r, Block::Text { text: t.clone() });
    }
    let ghost head = block_views(r@);
    let ghost want = call_views(calls@).map_values(
        |c: CallView| BlockView::ToolUse { id: c.id, name: c.name, input: c.input },
    );
    let mut i: usize = 0;
    assert(head + want.take(0) =~= head);
    while i < calls.len()
        invariant
            i <= calls@.len(),
            want == call_views(calls@).map_values(
                |c: CallView| BlockView::ToolUse { id: c.id, name: c.name, input: c.input },
            ),
            block_views(r@) == head + want.take(i as int),
        decreases calls@.len() - i,
    {
        let c = &calls[i];
        push_block(
            &mut r,
            Block::ToolUse { id: c.id.clone(), name: c.name.clone(), input: c.input.clone() },
        );
        assert(want.take(i + 1) =~= want.take(i as int).push(want[i as int]));
        assert(head + want.take(i + 1) =~= (head + want.take(i as int)).push(want[i as int]));
        i = i + 1;
    }
    assert(want.take(i as int) =~= want);
    r
}

/// The answer to the calls of `blocks`, which never ran to their end; nothing where there are none.
fn answer_cut_off(blocks: &Vec<Block>) -> (r: Option<Message>)
    ensures
        match r {
            Some(m) => calls_made(block_views(blocks@)).len() > 0 && m@ == cut_off(
                calls_made(block_views(blocks@)),
            ),
            None => calls_made(block_views(blocks@)).len() == 0,
        },
{
    let ghost all = block_views(blocks@);
    let mut results: Vec<(&str, String, bool)> = Vec::new();
    let mut i: usize = 0;
    assert(all.take(0) =~= Seq::empty());
    assert(result_views(results@) =~= cut_off(Seq::empty()).content);
    while i < blocks.len()
        invariant
            i <= blocks@.len(),
            all == block_views(blocks@),
            result_views(results@) == cut_off(calls_made(all.take(i as int))).content,
        decreases blocks@.len() - i,
    {
        assert(all.take(i + 1).drop_last() =~= all.take(i as int));
        assert(all.take(i + 1).last() == blocks@[i as int]@);
        if let Block::ToolUse { id, .. } = &blocks[i] {
            let ghost before = results@;
            results.push((id.as_str(), INTERRUPTED.to_owned(), true));
            assert(result_views(results@) =~= result_views(before).push(
                result_view(results@.last()),
            ));
            assert(result_views(results@) =~= cut_off(calls_made(all.take(i + 1))).content);
        }
        i = i + 1;
    }
    assert(all.take(i as int) =~= all);
    assert(result_views(results@).len() == calls_made(all).len());
    if results.len() == 0 {
        return None;
    }
    let m = Message::tool_results(results);
    assert(m@.content =~= result_views(results@));
    Some(m)
}

impl AgentLoop {
    /// Takes a turn back to where the user can go on, wherever it was broken off.
    pub fn recover_interrupt(&mut self)
        ensures
            final(self)@ == recovered(old(self)@),
    {
        let ghost h = self@.history;
        let n: usize = self.history.len();
        if n > 0 {
            let last = &self.history[n - 1];
            assert(h.last() == last@);
            let answer = match last.role {
                Role::Assistant => answer_cut_off(&last.content),
                _ => None,
            };
            if let Some(m) = answer {
                push_history(&mut self.history, m);
            }
            assert(self@.history == calls_settled(h));
            let k: usize = self.history.len();
            assert(self@.history.len() == k);
            let open = match self.history[k - 1].role {
                Role::User => true,
                _ => false,
            };
            assert(self@.history.last() == self.history@[k - 1]@);
            if open {
                let mut blocks: Vec<Block> = Vec::new();
                blocks.push(Block::Text { text: INTERRUPTED.to_owned() });
                assert(block_views(blocks@) =~= seq![BlockView::Text { text: INTERRUPTED@ }]);
                push_history(&mut self.history, Message::assistant(blocks));
            }
        }
        self.state = State::AwaitingInput;
        self.text = None;
        self.thinking = None;
        self.calls = Vec::new();
        assert(self@.calls =~= Seq::empty());
    }

    /// Whether the conversation is to be compressed now: where it is cut, and the request that asks
    /// for a summary of what stands before the cut.
    pub fn compression_request(&self) -> (r: Option<(usize, RequestContext)>)
        ensures
            match r {
                Some((i, ctx)) => {
                    &&& compression_cut(self@) == Some(i as int)
                    &&& 0 < i < self@.history.len()
                    &&& ctx@ == summary_asked(self@.history.take(i as int))
                },
                None => compression_cut(self@) is None,
            },
    {
        if self.compress_attempted {
            return None;
        }
        let limit = match self.context_limit {
            Some(n) => n,
            None => {
                return None;
            },
        };
        let estimate = estimate_tokens(self.history.as_slice());
        let threshold: u64 = limit as u64 * 8 / 10;
        if estimate <= threshold {
            return None;
        }
        self.compact_request()
    }

    /// The same at the user's wish, however long the conversation is and whether or not it was
    /// compressed before.
    pub fn compact_request(&self) -> (r: Option<(usize, RequestContext)>)
        ensures
            match r {
                Some((i, ctx)) => {
                    &&& cut_index(self@.history) == Some(i as int)
                    &&& 0 < i < self@.history.len()
                    &&& ctx@ == summary_asked(self@.history.take(i as int))
                },
                None => cut_index(self@.history) is None,
            },
    {
        match find_cut_index(self.history.as_slice()) {
            None => None,
            Some(i) => {
                proof {
                    law_cut_is_a_turn(self@.history);
                }
                let early = vstd::slice::slice_subrange(self.history.as_slice(), 0, i);
                assert(message_views(early@) =~= self@.history.take(i as int));
                Some((i, summary_request(early)))
            },
        }
    }

    /// Takes the outcome of a summary asked for with the cut at `cut_at`. A failure leaves the
    /// conversation as it is, to be tried again later.
    pub fn finish_compression(&mut self, cut_at: usize, outcome: Result<String>)
        requires
            cut_at <= old(self)@.history.len(),
        ensures
            final(self)@ == (match outcome {
                Ok(s) => compressed(old(self)@, cut_at as int, s@),
                Err(_) => old(self)@,
            }),
    {
        match outcome {
            Ok(summary) => {
                let kept = self.history.split_off(cut_at);
                self.history = kept;
                self.compress_attempted = true;
                self.pending_summary = Some(summary);
                if let Some(c) = &mut self.cache_strategy {
                    c.invalidate();
                }
                assert(self@.history =~= old(self)@.history.skip(cut_at as int));
            },
            Err(_) => {},
        }
    }

    /// Takes the outcome of a summary that the user asked for, and tells what came of it.
    pub fn finish_compact(&mut self, cut_at: usize, outcome: Result<String>) -> (r: Result<&'static str>)
        requires
            cut_at <= old(self)@.history.len(),
        ensures
            match outcome {
                Ok(s) => {
                    &&& final(self)@ == compressed(old(self)@, cut_at as int, s@)
                    &&& r matches Ok(m) && m@ == COMPACTED@
                },
                Err(e) => final(self)@ == old(self)@ && r == Err::<&'static str, LexError>(e),
            },
    {
        match outcome {
            Ok(summary) => {
                self.finish_compression(cut_at, Ok(summary));
                Ok(COMPACTED)
            },
            Err(e) => Err(e),
        }
    }

    /// Begins a turn with the user's input.
    pub fn start_turn(&mut self, user_input: &str)
        ensures
            final(self)@ == started(old(self)@, user_input@),
    {
        let text = match &self.pending_summary {
            Some(s) => cat4("[前期对话摘要]\n", s.as_str(), "\n\n[本轮任务]\n", user_input),
            None => user_input.to_owned(),
        };
        self.pending_summary = None;
        push_history(&mut self.history, Message::user_text(text.as_str()));
        self.security.reset_turn();
        self.turns = 0;
        self.state = State::AssemblingRequest;
        self.text = None;
        self.thinking = None;
        self.calls = Vec::new();
        assert(self@.calls =~= Seq::empty());
    }

    /// Makes the next request of the turn, or fails where the turn has made too many.
    pub fn next_request(&mut self) -> (r: Result<RequestContext>)
        ensures
            match r {
                Ok(ctx) => {
                    &&& old(self)@.turns < old(self)@.max_turns
                    &&& ctx@ == request_of(old(self)@)
                    &&& final(self)@ == requesting(old(self)@)
                },
                Err(e) => {
                    &&& old(self)@.turns >= old(self)@.max_turns
                    &&& e@ == ErrorView::Provider(too_many(old(self)@.max_turns))
                    &&& final(self)@ == old(self)@
                },
            },
    {
        if self.turns >= self.max_turns {
            let n = dec_text(self.max_turns as u64);
            return Err(
                LexError::Provider(
                    cat3("已达到单轮任务最大循环次数 ", n.as_str(), "(疑似模型反复调用工具未收敛)"),
                ),
            );
        }
        self.turns = self.turns + 1;
        let ctx = RequestContext {
            system: self.system.clone(),
            tools: self.registry.definitions(),
            messages: clone_messages(&self.history),
        };
        assert(ctx@ == request_of(old(self)@));
        if let Some(c) = &mut self.cache_strategy {
            let _report = c.prepare(&ctx);
        }
        self.state = State::AwaitingModel;
        self.text = None;
        self.thinking = None;
        self.calls = Vec::new();
        assert(self@.calls =~= Seq::empty());
        Ok(ctx)
    }

    /// Takes one piece of the reply.
    pub fn take_event(&mut self, event: &ProviderEvent)
        ensures
            final(self)@ == heard(old(self)@, event@),
    {
        match event {
            ProviderEvent::TextDelta(t) => {
                let before = self.text.take();
                self.text = grow(before, t.as_str());
            },
            ProviderEvent::ThinkingDelta(t) => {
                let before = self.thinking.take();
                self.thinking = grow(before, t.as_str());
            },
            ProviderEvent::ToolUseComplete { id, name, input } => {
                self.calls.push(
                    ToolCall { id: id.clone(), name: name.clone(), input: input.clone() },
                );
                assert(self@.calls =~= heard(old(self)@, event@).calls);
            },
            _ => {},
        }
    }

    /// Whether the calls of the reply may run at once.
    fn at_once(&self) -> (r: bool)
        ensures
            r == run_at_once(self@.tools, self@.calls),
    {
        if self.calls.len() <= 1 {
            return false;
        }
        let mut i: usize = 0;
        while i < self.calls.len()
            invariant
                i <= self.calls@.len(),
                forall|k: int| 0 <= k < i ==> may_run_beside(self@.tools, #[trigger] self@.calls[k]),
            decreases self.calls@.len() - i,
        {
            let safe = match self.registry.get(self.calls[i].name.as_str()) {
                Some(t) => t.parallel_safe,
                None => false,
            };
            assert(self@.calls[i as int] == self.calls@[i as int]@);
            if !safe {
                assert(!may_run_beside(self@.tools, self@.calls[i as int]));
                return false;
            }
            i = i + 1;
        }
        true
    }

    /// The reply is complete: says whether the turn is over or which calls are to be run.
    pub fn end_reply(&mut self) -> (r: TurnStep)
        ensures
            final(self)@ == replied(old(self)@),
            match r {
                TurnStep::Reply(t) => old(self)@.calls.len() == 0 && t@ == final_text(old(self)@),
                TurnStep::Run { calls, at_once } => {
                    &&& old(self)@.calls.len() > 0
                    &&& call_views(calls@) == old(self)@.calls
                    &&& at_once == run_at_once(old(self)@.tools, old(self)@.calls)
                },
            },
    {
        let at_once = self.at_once();
        let mut calls: Vec<ToolCall> = Vec::new();
        core::mem::swap(&mut calls, &mut self.calls);
        if calls.len() > 0 {
            let blocks = make_blocks(&self.thinking, &self.text, &calls);
            push_history(&mut self.history, Message::assistant(blocks));
            self.state = State::ExecutingTools;
            self.text = None;
            self.thinking = None;
            assert(self@.calls =~= Seq::empty());
            TurnStep::Run { calls, at_once }
        } else {
            let text = match self.text.take() {
                Some(t) => t,
                None => String::new(),
            };
            let some_text = Some(text.clone());
            assert(call_views(calls@) =~= Seq::empty());
            let blocks = make_blocks(&self.thinking, &some_text, &calls);
            push_history(&mut self.history, Message::assistant(blocks));
            self.state = State::AwaitingInput;
            self.thinking = None;
            assert(self@.calls =~= Seq::empty());
            TurnStep::Reply(text)
        }
    }

    /// Takes what came of the calls, in their order.
    pub fn take_results(&mut self, calls: &Vec<ToolCall>, outcomes: &Vec<Block>)
        ensures
            final(self)@ == results_taken(
                old(self)@,
                call_views(calls@),
                block_views(outcomes@),
            ),
    {
        let ghost cs = call_views(calls@);
        let ghost os = block_views(outcomes@);
        let mut results: Vec<(&str, String, bool)> = Vec::new();
        let mut i: usize = 0;
        assert(result_views(results@) =~= Seq::empty());
        while i < calls.len() && i < outcomes.len()
            invariant
                i <= calls@.len(),
                i <= outcomes@.len(),
                cs == call_views(calls@),
                os == block_views(outcomes@),
                result_views(results@) == answers(cs, os, i as int),
            decreases calls@.len() - i,
        {
            assert(os[i as int] == outcomes@[i as int]@);
            if let Block::ToolResult { content, is_error, .. } = &outcomes[i] {
                let ghost before = results@;
                results.push((calls[i].id.as_str(), content.clone(), *is_error));
                assert(result_views(results@) =~= result_views(before).push(
                    result_view(results@.last()),
                ));
            }
            i = i + 1;
        }
        push_history(&mut self.history, Message::tool_results(results));
        self.state = State::AssemblingRequest;
    }
}

// ---- what is told of tools and of children ----

/// A tool has run.
#[derive(Debug)]
pub struct ToolResultInfo {
    pub tool_name: String,
    pub first_line: String,
    pub is_error: bool,
}

/// What is told of a tool that has run: the first line of what it gave.
pub fn result_info(tool_name: &str, outcome: &Block) -> (r: Option<ToolResultInfo>)
    ensures
        match (outcome@, r) {
            (BlockView::ToolResult { content, is_error, .. }, Some(i)) => {
                &&& i.tool_name@ == tool_name@
                &&& i.first_line@ == first_line(content)
                &&& i.is_error == is_error
            },
            (BlockView::ToolResult { .. }, None) => false,
            (_, r) => r is None,
        },
{
    match outcome {
        Block::ToolResult { content, is_error, .. } => Some(
            ToolResultInfo {
                tool_name: tool_name.to_owned(),
                first_line: head_line(content.as_str()),
                is_error: *is_error,
            },
        ),
        _ => None,
    }
}

/// What a child does.
#[derive(Debug)]
pub enum ChildEventKind {
    Started { task: String },
    ToolCall { name: String, input: Json },
    ToolResult { name: String, first_line: String, is_error: bool },
    Finished { summary_first_line: String },
}

/// A child does something.
#[derive(Debug)]
pub struct ChildEvent {
    pub child_id: u32,
    pub depth: u32,
    pub kind: ChildEventKind,
}

/// What is told of what a child does.
pub enum KindView {
    Started { task: Seq<char> },
    ToolCall { name: Seq<char>, input: JsonTree },
    ToolResult { name: Seq<char>, first_line: Seq<char>, is_error: bool },
    Finished { summary_first_line: Seq<char> },
}

/// What an event of a child holds.
pub struct ChildEventView {
    pub child_id: u32,
    pub depth: u32,
    pub kind: KindView,
}

impl View for ChildEvent {
    type V = ChildEventView;

    open spec fn view(&self) -> ChildEventView {
        ChildEventView {
            child_id: self.child_id,
            depth: self.depth,
            kind: match self.kind {
                ChildEventKind::Started { task } => KindView::Started { task: task@ },
                ChildEventKind::ToolCall { name, input } => KindView::ToolCall {
                    name: name@,
                    input: input.tree(),
                },
                ChildEventKind::ToolResult { name, first_line, is_error } => KindView::ToolResult {
                    name: name@,
                    first_line: first_line@,
                    is_error,
                },
                ChildEventKind::Finished { summary_first_line } => KindView::Finished {
                    summary_first_line: summary_first_line@,
                },
            },
        }
    }
}

// ---- laws ----

/// Whether user and assistant take turns, the user first.
pub open spec fn alternates(h: Seq<MessageView>) -> bool {
    forall|i: int|
        0 <= i < h.len() ==> (#[trigger] h[i]).role == (if i % 2 == 0 {
            Role::User
        } else {
            Role::Assistant
        })
}

/// Whether it is the user's turn to speak.
pub open spec fn users_turn(h: Seq<MessageView>) -> bool {
    h.len() % 2 == 0
}

/// The roles of a conversation always alternate: the user's input, which carries the summary where
/// one waits, comes when it is the user's turn; the reply when it is the assistant's; and the
/// results of all calls of a reply are one message of the user's.
pub proof fn law_roles_alternate(
    a: AgentView,
    input: Seq<char>,
    calls: Seq<CallView>,
    outcomes: Seq<BlockView>,
)
    requires
        alternates(a.history),
    ensures
        users_turn(a.history) ==> alternates(started(a, input).history) && !users_turn(
            started(a, input).history,
        ),
        !users_turn(a.history) ==> alternates(replied(a).history) && users_turn(replied(a).history),
        users_turn(a.history) ==> alternates(results_taken(a, calls, outcomes).history) && !users_turn(
            results_taken(a, calls, outcomes).history,
        ),
{
}

proof fn lemma_answers(calls: Seq<CallView>, outcomes: Seq<BlockView>, n: int)
    requires
        0 <= n <= calls.len(),
        n <= outcomes.len(),
        forall|i: int| 0 <= i < n ==> (#[trigger] outcomes[i]) is ToolResult,
    ensures
        answers(calls, outcomes, n).len() == n,
        forall|i: int|
            0 <= i < n ==> (#[trigger] answers(calls, outcomes, n)[i]) == (BlockView::ToolResult {
                tool_use_id: calls[i].id,
                content: outcomes[i]->ToolResult_content,
                is_error: outcomes[i]->ToolResult_is_error,
            }),
    decreases n,
{
    if n > 0 {
        lemma_answers(calls, outcomes, n - 1);
        assert(outcomes[n - 1] is ToolResult);
    }
}

/// Every call of a reply is answered, in the order of the calls and under its id, by its own
/// outcome.
pub proof fn law_every_call_is_answered(calls: Seq<CallView>, outcomes: Seq<BlockView>)
    requires
        calls.len() == outcomes.len(),
        forall|i: int| 0 <= i < outcomes.len() ==> (#[trigger] outcomes[i]) is ToolResult,
    ensures
        all_answers(calls, outcomes) == Seq::new(
            calls.len(),
            |i: int|
                BlockView::ToolResult {
                    tool_use_id: calls[i].id,
                    content: outcomes[i]->ToolResult_content,
                    is_error: outcomes[i]->ToolResult_is_error,
                },
        ),
{
    lemma_answers(calls, outcomes, calls.len() as int);
}

/// Compression keeps the roles alternating, with the user first, and keeps the last turn whole.
pub proof fn law_compression_keeps_the_last_turn(a: AgentView, summary: Seq<char>)
    requires
        alternates(a.history),
        compression_cut(a) is Some,
    ensures
        ({
            let b = compressed(a, compression_cut(a)->0, summary);
            &&& alternates(b.history)
            &&& b.history.len() > 0
            &&& opens_turn(b.history[0])
            &&& users_turn(b.history) == users_turn(a.history)
            &&& b.history.is_suffix_of(a.history)
        }),
{
    law_cut_is_a_turn(a.history);
    let i = compression_cut(a)->0;
    assert(a.history[i].role == Role::User);
    assert(i % 2 == 0);
    let b = compressed(a, i, summary);
    assert forall|k: int| 0 <= k < b.history.len() implies (#[trigger] b.history[k]).role == (if k % 2
        == 0 {
        Role::User
    } else {
        Role::Assistant
    }) by {
        assert(b.history[k] == a.history[i + k]);
    }
}

/// A session is compressed once at most: after that, however long it grows, nothing is cut.
pub proof fn law_compressed_once(a: AgentView, cut_at: int, summary: Seq<char>, b: AgentView)
    requires
        b.compress_attempted == compressed(a, cut_at, summary).compress_attempted,
    ensures
        compression_cut(b) is None,
{
}

/// The summary stands in one message: the next one of the user's. After that none waits.
pub proof fn law_summary_is_told_once(a: AgentView, cut_at: int, summary: Seq<char>, input: Seq<char>)
    ensures
        ({
            let b = started(compressed(a, cut_at, summary), input);
            &&& b.history.last() == user_message(
                "[前期对话摘要]\n"@ + summary + "\n\n[本轮任务]\n"@ + input,
            )
            &&& b.pending_summary is None
        }),
{
}

/// A turn makes at most as many requests as it may: each request counts one, and none is made
/// beyond the limit.
pub proof fn law_requests_are_bounded(a: AgentView)
    requires
        a.turns < a.max_turns,
    ensures
        requesting(a).turns == a.turns + 1,
        requesting(a).turns <= a.max_turns,
        requesting(a).max_turns == a.max_turns,
{
}

/// What is sent to the model only grows within a session that is not compressed: each request
/// begins with the messages of the one before.
pub proof fn law_history_only_grows(
    a: AgentView,
    input: Seq<char>,
    calls: Seq<CallView>,
    outcomes: Seq<BlockView>,
)
    ensures
        a.history.is_prefix_of(started(a, input).history),
        a.history.is_prefix_of(replied(a).history),
        a.history.is_prefix_of(results_taken(a, calls, outcomes).history),
        requesting(a).history == a.history,
{
    assert(a.history =~= started(a, input).history.subrange(0, a.history.len() as int));
    assert(a.history =~= replied(a).history.subrange(0, a.history.len() as int));
    assert(a.history =~= results_taken(a, calls, outcomes).history.subrange(0, a.history.len() as int));
}

/// A sensitive file that was read counts until the next turn begins, and no longer.
pub proof fn law_new_turn_forgets(a: AgentView, input: Seq<char>)
    ensures
        !started(a, input).sensitive_read,
        started(a, input).rules == a.rules,
{
}

/// Whether every call of message `i` is answered by the message after it.
pub open spec fn answered_after(h: Seq<MessageView>, i: int) -> bool {
    calls_made(h[i].content).len() > 0 ==> i + 1 < h.len() && calls_answered(h[i + 1].content)
        == calls_made(h[i].content)
}

proof fn lemma_cut_off(ids: Seq<Seq<char>>)
    ensures
        calls_answered(cut_off(ids).content) == ids,
        calls_made(cut_off(ids).content).len() == 0,
    decreases ids.len(),
{
    if ids.len() > 0 {
        lemma_cut_off(ids.drop_last());
        assert(cut_off(ids).content.drop_last() =~= cut_off(ids.drop_last()).content);
        assert(ids.drop_last().push(ids.last()) =~= ids);
    }
}

/// However a turn is broken off, the user can go on: the roles alternate and it is the user's turn,
/// no call is left without an answer, and nothing that was said is taken back.
pub proof fn law_interrupted_turn_can_go_on(a: AgentView)
    requires
        alternates(a.history),
        forall|i: int| 0 <= i < a.history.len() - 1 ==> #[trigger] answered_after(a.history, i),
        a.history.len() > 0 && a.history.last().role == Role::User ==> calls_made(
            a.history.last().content,
        ).len() == 0,
    ensures
        alternates(recovered(a).history),
        users_turn(recovered(a).history),
        forall|i: int|
            0 <= i < recovered(a).history.len() ==> #[trigger] answered_after(
                recovered(a).history,
                i,
            ),
        a.history.is_prefix_of(recovered(a).history),
{
    let h = a.history;
    let g = calls_settled(h);
    let r = reply_settled(g);
    if h.len() > 0 {
        lemma_cut_off(calls_made(h.last().content));
        let n = h.len() as int;
        assert(h[n - 1] == h.last());
        let closing = seq![BlockView::Text { text: INTERRUPTED@ }];
        assert(closing.drop_last() =~= Seq::empty());
        assert(calls_made(closing).len() == 0) by {
            reveal_with_fuel(calls_made, 2);
        }
        assert forall|i: int| 0 <= i < r.len() implies #[trigger] answered_after(r, i) by {
            if i < n - 1 {
                assert(answered_after(h, i));
                assert(r[i] == h[i]);
                assert(r[i + 1] == h[i + 1]);
            }
        }
    }
    assert(h =~= r.subrange(0, h.len() as int));
}

/// A conversation after the pieces of a reply, one after the other.
pub open spec fn heard_all(a: AgentView, evs: Seq<EventView>) -> AgentView
    decreases evs.len(),
{
    if evs.len() == 0 {
        a
    } else {
        heard(heard_all(a, evs.drop_last()), evs.last())
    }
}

proof fn lemma_heard_all(a: AgentView, evs: Seq<EventView>)
    requires
        a.text is None,
        a.thinking is None,
        a.calls.len() == 0,
    ensures
        ({
            let b = heard_all(a, evs);
            let calls = whole_calls(evs);
            &&& b == (AgentView { text: b.text, thinking: b.thinking, calls: b.calls, ..a })
            &&& b.text is Some <==> exists|k: int|
                0 <= k < evs.len() && #[trigger] evs[k] is TextDelta
            &&& b.text matches Some(t) ==> t == told_text(evs)
            &&& b.text is None ==> told_text(evs).len() == 0
            &&& b.thinking is Some <==> exists|k: int|
                0 <= k < evs.len() && #[trigger] evs[k] is ThinkingDelta
            &&& b.thinking matches Some(t) ==> t == told_thinking(evs)
            &&& b.thinking is None ==> told_thinking(evs).len() == 0
            &&& b.calls.len() == calls.len()
            &&& forall|k: int|
                0 <= k < calls.len() ==> #[trigger] calls[k] == (EventView::ToolUseComplete {
                    id: b.calls[k].id,
                    name: b.calls[k].name,
                    input: b.calls[k].input,
                })
        }),
    decreases evs.len(),
{
    if evs.len() > 0 {
        let front = evs.drop_last();
        lemma_heard_all(a, front);
        let e = evs.last();
        let b = heard_all(a, evs);
        let c = heard_all(a, front);
        assert(evs[evs.len() - 1] == e);
        if c.text is Some {
            let k = choose|k: int| 0 <= k < front.len() && #[trigger] front[k] is TextDelta;
            assert(evs[k] is TextDelta);
        }
        if c.thinking is Some {
            let k = choose|k: int| 0 <= k < front.len() && #[trigger] front[k] is ThinkingDelta;
            assert(evs[k] is ThinkingDelta);
        }
        if b.text is None {
            assert forall|k: int| 0 <= k < evs.len() implies !(#[trigger] evs[k] is TextDelta) by {
                if k < front.len() {
                    assert(front[k] == evs[k]);
                }
            }
        }
        if b.thinking is None {
            assert forall|k: int| 0 <= k < evs.len() implies !(
            #[trigger] evs[k] is ThinkingDelta) by {
                if k < front.len() {
                    assert(front[k] == evs[k]);
                }
            }
        }
        assert(told_text(front) + Seq::<char>::empty() =~= told_text(front));
        assert(told_thinking(front) + Seq::<char>::empty() =~= told_thinking(front));
        if let EventView::TextDelta(t) = e {
            if c.text is None {
                assert(told_text(front) + t =~= t);
            }
        }
        if let EventView::ThinkingDelta(t) = e {
            if c.thinking is None {
                assert(told_thinking(front) + t =~= t);
            }
        }
        let calls = whole_calls(evs);
        let before = whole_calls(front);
        assert forall|k: int| 0 <= k < calls.len() implies #[trigger] calls[k] == (
        EventView::ToolUseComplete {
            id: b.calls[k].id,
            name: b.calls[k].name,
            input: b.calls[k].input,
        }) by {
            if k < before.len() {
                assert(calls[k] == before[k]);
            }
        }
    }
}

/// A reply goes into the history as one message of the assistant's, behind all that was there: its
/// thinking in a row where it has any, its text in a row where it has any or makes no call, and
/// every call that came whole, in order, with its id, name and arguments. Nothing else of the
/// conversation changes but where the turn is: with calls, they are to be run; without, the turn is
/// over and its answer is the text.
pub proof fn law_reply_is_kept(a: AgentView, evs: Seq<EventView>)
    requires
        a.text is None,
        a.thinking is None,
        a.calls.len() == 0,
    ensures
        ({
            let b = replied(heard_all(a, evs));
            let calls = whole_calls(evs);
            let m = b.history.last();
            let thinks = exists|k: int| 0 <= k < evs.len() && #[trigger] evs[k] is ThinkingDelta;
            let speaks = exists|k: int| 0 <= k < evs.len() && #[trigger] evs[k] is TextDelta;
            let n: int = if thinks {
                1
            } else {
                0
            };
            let p: int = if speaks || calls.len() == 0 {
                n + 1
            } else {
                n
            };
            &&& b.history.len() == a.history.len() + 1
            &&& b.history.drop_last() == a.history
            &&& m.role == Role::Assistant
            &&& m.content.len() == p + calls.len()
            &&& thinks ==> m.content[0] == BlockView::Thinking {
                reasoning_content: told_thinking(evs),
            }
            &&& p > n ==> m.content[n] == BlockView::Text { text: told_text(evs) }
            &&& forall|k: int|
                0 <= k < calls.len() ==> {
                    let c = #[trigger] m.content[p + k];
                    &&& c is ToolUse
                    &&& calls[k] == EventView::ToolUseComplete {
                        id: c->ToolUse_id,
                        name: c->name,
                        input: c->input,
                    }
                }
            &&& b.state == (if calls.len() > 0 {
                State::ExecutingTools
            } else {
                State::AwaitingInput
            })
            &&& b.calls.len() == 0
            &&& calls.len() == 0 ==> final_text(heard_all(a, evs)) == told_text(evs)
        }),
{
    lemma_heard_all(a, evs);
    let c = heard_all(a, evs);
    let b = replied(c);
    assert(b.history.drop_last() =~= a.history);
    let calls = whole_calls(evs);
    assert forall|k: int| 0 <= k < calls.len() implies #[trigger] calls[k] == (
    EventView::ToolUseComplete {
        id: c.calls[k].id,
        name: c.calls[k].name,
        input: c.calls[k].input,
    }) by {}
    if c.text is None {
        assert(told_text(evs) =~= Seq::empty());
    }
    let m = b.history.last();
    let n: int = if c.thinking is Some {
        1
    } else {
        0
    };
    let p: int = if c.text is Some || calls.len() == 0 {
        n + 1
    } else {
        n
    };
    assert forall|k: int| 0 <= k < calls.len() implies {
        let c = #[trigger] m.content[p + k];
        &&& c is ToolUse
        &&& calls[k] == EventView::ToolUseComplete { id: c->ToolUse_id, name: c->name, input: c->input }
    } by {
        assert(calls[k] == (EventView::ToolUseComplete {
            id: c.calls[k].id,
            name: c.calls[k].name,
            input: c.calls[k].input,
        }));
    }
}

/// A turn begins with one message of the user's behind all that was there: what the user said, and
/// before it the summary where one waits. Nothing of an earlier reply is left.
pub proof fn law_turn_begins_with_the_input(a: AgentView, input: Seq<char>)
    ensures
        ({
            let b = started(a, input);
            &&& b.history.len() == a.history.len() + 1
            &&& b.history.drop_last() == a.history
            &&& b.history.last().role == Role::User
            &&& b.history.last().content == seq![
                BlockView::Text {
                    text: match a.pending_summary {
                        Some(s) => "[前期对话摘要]\n"@ + s + "\n\n[本轮任务]\n"@ + input,
                        None => input,
                    },
                },
            ]
            &&& b.pending_summary is None
            &&& b.turns == 0
            &&& b.text is None
            &&& b.thinking is None
            &&& b.calls.len() == 0
            &&& b.state == State::AssemblingRequest
            &&& b.tools == a.tools
            &&& b.system == a.system
            &&& b.max_turns == a.max_turns
            &&& b.context_limit == a.context_limit
            &&& b.compress_attempted == a.compress_attempted
        }),
{
    assert(started(a, input).history.drop_last() =~= a.history);
}

/// A request carries the system prompt, the whole history as it is, and every tool, in order, by its
/// name, its description and its schema.
pub proof fn law_request_carries_the_conversation(a: AgentView, k: int)
    requires
        0 <= k < a.tools.len(),
    ensures
        request_of(a).system == a.system,
        request_of(a).messages == a.history,
        request_of(a).tools.len() == a.tools.len(),
        request_of(a).tools[k].name == a.tools[k].name,
        request_of(a).tools[k].description == a.tools[k].description,
        request_of(a).tools[k].input_schema == a.tools[k].input_schema,
{
}

/// A conversation is compressed exactly where it was not yet, has a limit, is estimated at more than
/// four fifths of it, and can be cut: before the last message in which the user speaks, the first
/// message aside. The part from the cut on stays as it is; the summary waits for the next message of
/// the user's.
pub proof fn law_compression_is_due(a: AgentView, summary: Seq<char>)
    ensures
        compression_cut(a) is Some <==> {
            &&& !a.compress_attempted
            &&& a.context_limit is Some
            &&& 10 * estimated(a.history) > 8 * a.context_limit->0
            &&& exists|j: int| 0 < j < a.history.len() && user_speaks(#[trigger] a.history[j])
        },
        compression_cut(a) matches Some(i) ==> {
            let b = compressed(a, i, summary);
            &&& 0 < i < a.history.len()
            &&& user_speaks(a.history[i])
            &&& forall|j: int| i < j < a.history.len() ==> !user_speaks(#[trigger] a.history[j])
            &&& a.history == a.history.take(i) + b.history
            &&& b.history.len() == a.history.len() - i
            &&& b.pending_summary == Some(summary)
            &&& b.compress_attempted
            &&& b.system == a.system
            &&& b.tools == a.tools
        },
{
    law_cut_is_before_the_last_task(a.history);
    if let Some(i) = compression_cut(a) {
        assert(a.history =~= a.history.take(i) + compressed(a, i, summary).history);
    }
}

/// Calls run at once exactly where there are two or more and each is of a tool that may run beside
/// others; a call of a tool that is not there never does.
pub proof fn law_calls_run_at_once(tools: Seq<ToolView>, calls: Seq<CallView>)
    ensures
        run_at_once(tools, calls) ==> calls.len() >= 2,
        run_at_once(tools, calls) ==> forall|i: int|
            0 <= i < calls.len() ==> exists|k: int|
                0 <= k < tools.len() && (#[trigger] tools[k]).name == (
                #[trigger] calls[i]).name && tools[k].parallel_safe,
        calls.len() >= 2 && (forall|i: int|
            0 <= i < calls.len() ==> exists|k: int|
                0 <= k < tools.len() && (#[trigger] tools[k]).name == (
                #[trigger] calls[i]).name) && (forall|k: int|
            0 <= k < tools.len() ==> (#[trigger] tools[k]).parallel_safe) ==> run_at_once(
            tools,
            calls,
        ),
{
    if run_at_once(tools, calls) {
        assert forall|i: int| 0 <= i < calls.len() implies (exists|k: int|
            0 <= k < tools.len() && (#[trigger] tools[k]).name == (#[trigger] calls[i]).name
                && tools[k].parallel_safe) by {
            assert(may_run_beside(tools, calls[i]));
            law_tool_is_found_by_name(tools, calls[i].name);
            let t = tool_named(tools, calls[i].name)->0;
            let k = choose|k: int|
                0 <= k < tools.len() && #[trigger] tools[k] == t && t.name == calls[i].name && (
                forall|j: int| 0 <= j < k ==> (#[trigger] tools[j]).name != calls[i].name);
            assert(tools[k].name == calls[i].name);
        }
    }
    if calls.len() >= 2 && (forall|i: int|
        0 <= i < calls.len() ==> exists|k: int|
            0 <= k < tools.len() && (#[trigger] tools[k]).name == (#[trigger] calls[i]).name) && (
    forall|k: int| 0 <= k < tools.len() ==> (#[trigger] tools[k]).parallel_safe) {
        assert forall|i: int| 0 <= i < calls.len() implies may_run_beside(
            tools,
            #[trigger] calls[i],
        ) by {
            law_tool_is_found_by_name(tools, calls[i].name);
            let k = choose|k: int|
                0 <= k < tools.len() && (#[trigger] tools[k]).name == calls[i].name;
            assert(tools[k].name == calls[i].name);
        }
    }
}

/// The outcomes of calls are one message of the user's behind all that was there; one that is no
/// outcome is passed over, and the others keep their order.
pub proof fn law_results_are_kept(a: AgentView, calls: Seq<CallView>, outcomes: Seq<BlockView>)
    requires
        calls.len() == outcomes.len(),
        forall|i: int| 0 <= i < outcomes.len() ==> (#[trigger] outcomes[i]) is ToolResult,
    ensures
        ({
            let b = results_taken(a, calls, outcomes);
            let m = b.history.last();
            &&& b.history.drop_last() == a.history
            &&& m.role == Role::User
            &&& m.content.len() == calls.len()
            &&& forall|k: int|
                0 <= k < calls.len() ==> {
                    let r = #[trigger] m.content[k];
                    &&& r is ToolResult
                    &&& r->tool_use_id == calls[k].id
                    &&& r->ToolResult_content == outcomes[k]->ToolResult_content
                    &&& r->ToolResult_is_error == outcomes[k]->ToolResult_is_error
                }
            &&& b.state == State::AssemblingRequest
            &&& b.turns == a.turns
        }),
{
    lemma_answers(calls, outcomes, calls.len() as int);
    assert(results_taken(a, calls, outcomes).history.drop_last() =~= a.history);
}

/// A turn that is broken off is closed in words: where calls had no outcome, each of them, in order
/// and by its id, gets one that says so and counts as a failure; and where the user would have
/// spoken last, a reply says so. Where neither is the case the history stays as it is.
pub proof fn law_interruption_is_told(a: AgentView)
    requires
        a.history.len() > 0,
    ensures
        ({
            let h = a.history;
            let b = recovered(a).history;
            let open = h.last().content.filter(|x: BlockView| x is ToolUse);
            let said = MessageView {
                role: Role::Assistant,
                content: seq![BlockView::Text { text: "本轮已被用户中断"@ }],
            };
            &&& h.last().role == Role::User ==> b == h.push(said)
            &&& h.last().role == Role::Assistant && open.len() == 0 ==> b == h
            &&& h.last().role == Role::Assistant && open.len() > 0 ==> {
                let m = b[h.len() as int];
                &&& b.len() == h.len() + 2
                &&& b.take(h.len() as int) == h
                &&& b.last() == said
                &&& m.role == Role::User
                &&& m.content.len() == open.len()
                &&& forall|k: int|
                    0 <= k < open.len() ==> #[trigger] m.content[k] == (BlockView::ToolResult {
                        tool_use_id: open[k]->ToolUse_id,
                        content: "本轮已被用户中断"@,
                        is_error: true,
                    })
            }
            &&& recovered(a).state == State::AwaitingInput
            &&& recovered(a).calls.len() == 0
        }),
{
    let h = a.history;
    lemma_calls_made(h.last().content);
    if h.last().role == Role::Assistant && calls_made(h.last().content).len() > 0 {
        assert(recovered(a).history.take(h.len() as int) =~= h);
    }
}

proof fn lemma_calls_made(bs: Seq<BlockView>)
    ensures
        calls_made(bs).len() == bs.filter(|x: BlockView| x is ToolUse).len(),
        forall|k: int|
            0 <= k < calls_made(bs).len() ==> #[trigger] calls_made(bs)[k] == bs.filter(
                |x: BlockView| x is ToolUse,
            )[k]->ToolUse_id,
    decreases bs.len(),
{
    reveal(Seq::filter);
    if bs.len() > 0 {
        lemma_calls_made(bs.drop_last());
    }
}

} // verus!
