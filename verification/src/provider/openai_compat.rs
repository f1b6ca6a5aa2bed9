//! Replies in OpenAI's wire format.
use vstd::prelude::*;
use vstd::string::*;
use crate::json::{json_text, opt_tree, trees, Json, JsonTree};
use crate::message::Usage;
use crate::provider::bytes::{unread, valid_text, EventBuffer};
use crate::provider::calls::{
    call_at, call_input, has_call, put_call, read_input, AccView, ToolAcc,
};
use crate::provider::openai_types::{build_request_with, request_for, wire_request, OpenAiParams};
use crate::provider::sse::{event_views, parsed_events, SseEvent};
use crate::provider::stream::{
    failed, fresh_reply, text_or_empty, text_or_none, unreadable, unreadable_text, went_on, Decoded,
    Fed, Reply, ReplyView,
};
use crate::provider::{
    endpoint, provider_event_views, without_slashes, EventView, HttpRequest, HttpView, ProviderEvent,
    RequestContext,
};
use crate::text::{cat2, opt_text, same, trim, trimmed, views};

verus! {

/// A service that speaks OpenAI's wire format.
#[derive(Debug)]
pub struct OpenAiCompatProvider {
    pub base_url: String,
    pub model: String,
    pub params: OpenAiParams,
    pub api_key: String,
}

impl OpenAiCompatProvider {
    /// A service at `base_url`.
    pub fn new(base_url: String, model: String, params: OpenAiParams, api_key: String) -> (r:
        OpenAiCompatProvider)
        ensures
            r == (OpenAiCompatProvider { base_url, model, params, api_key }),
    {
        OpenAiCompatProvider { base_url, model, params, api_key }
    }

    /// The address that requests go to.
    pub fn endpoint(&self) -> (r: String)
        ensures
            r@ == without_slashes(self.base_url@) + "/chat/completions"@,
    {
        endpoint(self.base_url.as_str(), "/chat/completions")
    }

    /// The request that a context makes.
    pub fn request(&self, ctx: &RequestContext) -> (r: HttpRequest)
        ensures
            r@ == (HttpView {
                url: without_slashes(self.base_url@) + "/chat/completions"@,
                headers: seq![
                    ("Authorization"@, "Bearer "@ + self.api_key@),
                    ("Content-Type"@, "application/json"@),
                ],
                body: json_text(wire_request(request_for(ctx@, self.model@, self.params@))),
            }),
    {
        let body = build_request_with(ctx, self.model.as_str(), &self.params).to_json().to_text();
        let mut headers: Vec<(String, String)> = Vec::new();
        headers.push(("Authorization".to_owned(), cat2("Bearer ", self.api_key.as_str())));
        headers.push(("Content-Type".to_owned(), "application/json".to_owned()));
        let r = HttpRequest { url: self.endpoint(), headers, body };
        assert(r@.headers =~= seq![
            ("Authorization"@, "Bearer "@ + self.api_key@),
            ("Content-Type"@, "application/json"@),
        ]);
        r
    }
}

// ---- chunks ----

/// A chunk of a reply.
#[derive(Debug, PartialEq)]
pub struct OpenAiChunk {
    pub choices: Vec<OpenAiChoice>,
    pub usage: Option<OpenAiUsage>,
    pub error: Option<Json>,
}

/// One of the answers that a chunk carries a piece of.
#[derive(Debug, PartialEq)]
pub struct OpenAiChoice {
    pub delta: Json,
    pub finish_reason: Option<String>,
}

/// The tokens that a reply took, as the service counts them.
#[derive(Debug, PartialEq)]
pub struct OpenAiUsage {
    pub prompt_tokens: u64,
    pub completion_tokens: u64,
    pub prompt_cache_hit_tokens: u64,
    pub prompt_cache_miss_tokens: u64,
    pub prompt_tokens_details: Option<PromptTokensDetails>,
}

/// Another place where a service tells what its cache had.
#[derive(Debug, PartialEq)]
pub struct PromptTokensDetails {
    pub cached_tokens: u64,
}

/// What a choice holds.
#[verifier::ext_equal]
pub struct ChoiceView {
    pub delta: JsonTree,
    pub finish_reason: Option<Seq<char>>,
}

impl View for OpenAiChoice {
    type V = ChoiceView;

    open spec fn view(&self) -> ChoiceView {
        ChoiceView { delta: self.delta.tree(), finish_reason: opt_text(self.finish_reason) }
    }
}

/// What a list of choices holds.
pub open spec fn choice_views(v: Seq<OpenAiChoice>) -> Seq<ChoiceView> {
    Seq::new(v.len(), |i: int| v[i]@)
}

/// What a chunk holds.
#[verifier::ext_equal]
pub struct ChunkView {
    pub choices: Seq<ChoiceView>,
    pub usage: Option<OpenAiUsage>,
    pub error: Option<JsonTree>,
}

impl View for OpenAiChunk {
    type V = ChunkView;

    open spec fn view(&self) -> ChunkView {
        ChunkView {
            choices: choice_views(self.choices@),
            usage: self.usage,
            error: opt_tree(self.error),
        }
    }
}

/// What the data of an event was read as: a chunk, or why it is none.
pub type ChunkRead = Result<ChunkView, Seq<char>>;

/// What the data of an event was read as.
pub open spec fn chunk_read(r: Result<OpenAiChunk, String>) -> ChunkRead {
    match r {
        Ok(f) => Ok(f@),
        Err(m) => Err(m@),
    }
}

/// The data of events, each with what it was read as.
pub open spec fn chunk_reads(v: Seq<(String, Result<OpenAiChunk, String>)>) -> Seq<
    (Seq<char>, ChunkRead),
> {
    Seq::new(v.len(), |i: int| (v[i].0@, chunk_read(v[i].1)))
}

// ---- what a chunk leads to ----

/// The tokens that `u` counts. What the cache had is told in either of two places.
pub open spec fn counted(u: OpenAiUsage) -> Usage {
    Usage {
        input_tokens: u.prompt_tokens,
        output_tokens: u.completion_tokens,
        cache_hit_tokens: if u.prompt_cache_hit_tokens > 0 {
            u.prompt_cache_hit_tokens
        } else {
            match u.prompt_tokens_details {
                Some(d) => d.cached_tokens,
                None => 0,
            }
        },
        cache_miss_tokens: u.prompt_cache_miss_tokens,
    }
}

/// The index of a call.
pub open spec fn call_index(tc: JsonTree) -> u64 {
    match tc.unsigned_of("index"@) {
        Some(n) => n,
        None => 0,
    }
}

/// The name under `function`, or nothing.
pub open spec fn function_name(tc: JsonTree) -> Seq<char> {
    match tc.get("function"@) {
        Some(f) => text_or_empty(f, "name"@),
        None => ""@,
    }
}

/// The first piece of a call, which carries its id, starts it; a call that is there stays.
pub open spec fn call_started(r: ReplyView, tc: JsonTree) -> Decoded {
    match tc.text_of("id"@) {
        Some(id) => went_on(
            ReplyView {
                usage: r.usage,
                calls: if has_call(r.calls, call_index(tc)) {
                    r.calls
                } else {
                    put_call(
                        r.calls,
                        call_index(tc),
                        AccView { id, name: function_name(tc), json: Seq::empty() },
                    )
                },
            },
            seq![EventView::ToolUseStart { id, name: function_name(tc) }],
        ),
        None => went_on(r, Seq::empty()),
    }
}

/// A name given later takes the place of the one before.
pub open spec fn call_named(r: ReplyView, tc: JsonTree) -> ReplyView {
    match tc.get("function"@) {
        Some(f) => match f.text_of("name"@) {
            Some(n) => if has_call(r.calls, call_index(tc)) {
                let a = call_at(r.calls, call_index(tc));
                ReplyView {
                    usage: r.usage,
                    calls: put_call(
                        r.calls,
                        call_index(tc),
                        AccView { id: a.id, name: n, json: a.json },
                    ),
                }
            } else {
                r
            },
            None => r,
        },
        None => r,
    }
}

/// A piece of the arguments is kept and handed on.
pub open spec fn call_extended(r: ReplyView, tc: JsonTree) -> Decoded {
    match tc.get("function"@) {
        Some(f) => match f.text_of("arguments"@) {
            Some(p) => if p.len() > 0 && has_call(r.calls, call_index(tc)) {
                let a = call_at(r.calls, call_index(tc));
                went_on(
                    ReplyView {
                        usage: r.usage,
                        calls: put_call(
                            r.calls,
                            call_index(tc),
                            AccView { id: a.id, name: a.name, json: a.json + p },
                        ),
                    },
                    seq![EventView::ToolUseDelta { id: a.id, partial_json: p }],
                )
            } else {
                went_on(r, Seq::empty())
            },
            None => went_on(r, Seq::empty()),
        },
        None => went_on(r, Seq::empty()),
    }
}

/// What one piece of a call leads to.
pub open spec fn on_tool_call(r: ReplyView, tc: JsonTree) -> Decoded {
    let a = call_started(r, tc);
    a.and(call_extended(call_named(a.reply, tc), tc))
}

/// What a list of pieces of calls leads to, one after the other.
pub open spec fn on_tool_calls(r: ReplyView, tcs: Seq<JsonTree>) -> Decoded
    decreases tcs.len(),
{
    if tcs.len() == 0 {
        went_on(r, Seq::empty())
    } else {
        let before = on_tool_calls(r, tcs.drop_last());
        before.and(on_tool_call(before.reply, tcs.last()))
    }
}

/// A text of a piece, where it has one that is not empty.
pub open spec fn piece_text(delta: JsonTree, key: Seq<char>) -> Option<Seq<char>> {
    match delta.text_of(key) {
        Some(t) => if t.len() > 0 {
            Some(t)
        } else {
            None
        },
        None => None,
    }
}

/// What the text of a piece hands on: thinking, then text.
pub open spec fn piece_events(delta: JsonTree) -> Seq<EventView> {
    let thinking = match piece_text(delta, "reasoning_content"@) {
        Some(t) => seq![EventView::ThinkingDelta(t)],
        None => Seq::empty(),
    };
    match piece_text(delta, "content"@) {
        Some(t) => thinking.push(EventView::TextDelta(t)),
        None => thinking,
    }
}

/// The calls of a piece.
pub open spec fn piece_calls(delta: JsonTree) -> Seq<JsonTree> {
    match delta.get("tool_calls"@) {
        Some(t) => match t.as_items() {
            Some(a) => a,
            None => Seq::empty(),
        },
        None => Seq::empty(),
    }
}

/// All calls are complete, in order of index, up to the first whose arguments cannot be read.
pub open spec fn calls_completed(r: ReplyView) -> Decoded
    decreases r.calls.len(),
{
    if r.calls.len() == 0 {
        went_on(r, Seq::empty())
    } else {
        let a = r.calls[0].1;
        let after = ReplyView { usage: r.usage, calls: r.calls.skip(1) };
        match call_input(a.json) {
            Ok(input) => went_on(
                after,
                seq![EventView::ToolUseComplete { id: a.id, name: a.name, input }],
            ).and(calls_completed(after)),
            Err(e) => failed(after, "tool_call JSON 不完整: "@ + e),
        }
    }
}

/// What one choice leads to: its text, its calls, and, where it says that it is finished, the end
/// of all calls.
pub open spec fn on_choice(r: ReplyView, c: ChoiceView) -> Decoded {
    let delta = c.delta;
    let pieces = went_on(r, piece_events(delta)).and(on_tool_calls(r, piece_calls(delta)));
    if c.finish_reason is Some {
        pieces.and(calls_completed(pieces.reply))
    } else {
        pieces
    }
}

/// What a list of choices leads to, one after the other, up to the first that fails.
pub open spec fn on_choices(r: ReplyView, cs: Seq<ChoiceView>) -> Decoded
    decreases cs.len(),
{
    if cs.len() == 0 {
        went_on(r, Seq::empty())
    } else {
        let before = on_choices(r, cs.drop_last());
        if before.over() {
            before
        } else {
            before.and(on_choice(before.reply, cs.last()))
        }
    }
}

/// How an error of the service is told: its message, or else all of it.
pub open spec fn error_text(e: JsonTree) -> Seq<char> {
    match e.text_of("message"@) {
        Some(m) => m,
        None => json_text(e),
    }
}

/// The reply after a chunk has counted tokens, where it does.
pub open spec fn with_usage(r: ReplyView, f: ChunkView) -> ReplyView {
    match f.usage {
        Some(u) => ReplyView { usage: counted(u), calls: r.calls },
        None => r,
    }
}

/// What a chunk leads to.
pub open spec fn on_chunk(r: ReplyView, f: ChunkView) -> Decoded {
    match f.error {
        Some(e) => failed(r, error_text(e)),
        None => on_choices(with_usage(r, f), f.choices),
    }
}

/// The end of a reply.
pub open spec fn reply_done(r: ReplyView) -> Decoded {
    Decoded { reply: r, events: Seq::empty(), done: true, error: None }
}

/// What an event leads to, given its data without white space at its ends, and what that was read
/// as. An event without data is passed over, and one says that the reply is over.
pub open spec fn on_data(r: ReplyView, data: Seq<char>, read: ChunkRead) -> Decoded {
    if data.len() == 0 {
        went_on(r, Seq::empty())
    } else if data == "[DONE]"@ {
        reply_done(r)
    } else {
        match read {
            Ok(f) => on_chunk(r, f),
            Err(e) => failed(r, unreadable(e, data)),
        }
    }
}

/// What a run of events leads to, given their data and what that was read as: one after the other,
/// up to the end of the reply or the first event that fails.
pub open spec fn on_reads(r: ReplyView, items: Seq<(Seq<char>, ChunkRead)>) -> Decoded
    decreases items.len(),
{
    if items.len() == 0 {
        went_on(r, Seq::empty())
    } else {
        let before = on_reads(r, items.drop_last());
        if before.over() {
            before
        } else {
            before.and(on_data(before.reply, items.last().0, items.last().1))
        }
    }
}

/// The data of events, in order, each without white space at its ends.
pub open spec fn event_data(evs: Seq<SseEvent>) -> Seq<Seq<char>> {
    evs.map_values(|e: SseEvent| trim(e.data))
}

// ---- reading ----

/// `out` with what `d` hands on behind it.
pub open spec fn fed_on(was: Seq<EventView>, d: Decoded) -> Decoded {
    Decoded { events: was + d.events, ..d }
}

/// The tokens that `u` counts.
pub fn read_usage(u: &OpenAiUsage) -> (r: Usage)
    ensures
        r == counted(*u),
{
    let cached: u64 = match &u.prompt_tokens_details {
        Some(d) => d.cached_tokens,
        None => 0,
    };
    Usage {
        input_tokens: u.prompt_tokens,
        output_tokens: u.completion_tokens,
        cache_hit_tokens: if u.prompt_cache_hit_tokens > 0 {
            u.prompt_cache_hit_tokens
        } else {
            cached
        },
        cache_miss_tokens: u.prompt_cache_miss_tokens,
    }
}

/// Takes one piece of a call in.
pub fn take_tool_call(reply: &mut Reply, tc: &Json, out: &mut Fed)
    requires
        !old(out).done,
        old(out).error is None,
    ensures
        ({
            let d = on_tool_call(old(reply)@, tc.tree());
            &&& final(reply)@ == d.reply
            &&& final(out).is(fed_on(provider_event_views(old(out).events@), d))
        }),
{
    let ghost was = provider_event_views(out.events@);
    let ghost start = reply@;
    let idx: u64 = match tc.u64_of("index") {
        Some(n) => n,
        None => 0,
    };
    let ghost started = call_started(start, tc.tree());
    if let Some(id) = tc.text_of("id") {
        let name: String = match tc.get("function") {
            Some(f) => text_or_none(f, "name"),
            None => "".to_owned(),
        };
        if !reply.calls.contains(idx) {
            reply.calls.insert(
                idx,
                ToolAcc { id: id.to_owned(), name: name.clone(), json: String::new() },
            );
        }
        out.push(ProviderEvent::ToolUseStart { id: id.to_owned(), name });
    }
    assert(reply@ == started.reply);
    assert(provider_event_views(out.events@) =~= was + started.events);
    if let Some(f) = tc.get("function") {
        if let Some(n) = f.text_of("name") {
            reply.calls.rename(idx, n);
        }
        assert(reply@ == call_named(started.reply, tc.tree()));
        if let Some(a) = f.text_of("arguments") {
            if !a.is_empty() {
                if let Some(id) = reply.calls.extend(idx, a) {
                    out.push(ProviderEvent::ToolUseDelta { id, partial_json: a.to_owned() });
                }
            }
        }
    }
    assert(provider_event_views(out.events@) =~= was + on_tool_call(start, tc.tree()).events);
}

/// Takes pieces of calls in, one after the other.
fn take_tool_calls(reply: &mut Reply, tcs: &Vec<Json>, out: &mut Fed)
    requires
        !old(out).done,
        old(out).error is None,
    ensures
        ({
            let d = on_tool_calls(old(reply)@, trees(tcs@));
            &&& final(reply)@ == d.reply
            &&& final(out).is(fed_on(provider_event_views(old(out).events@), d))
            &&& !d.over()
        }),
{
    let ghost was = provider_event_views(out.events@);
    let ghost start = reply@;
    let ghost all = trees(tcs@);
    let mut i: usize = 0;
    assert(all.take(0) =~= Seq::empty());
    assert(was + Seq::empty() =~= was);
    while i < tcs.len()
        invariant
            i <= tcs@.len(),
            all == trees(tcs@),
            reply@ == on_tool_calls(start, all.take(i as int)).reply,
            out.is(fed_on(was, on_tool_calls(start, all.take(i as int)))),
            !on_tool_calls(start, all.take(i as int)).over(),
        decreases tcs@.len() - i,
    {
        let ghost d = on_tool_calls(start, all.take(i as int));
        assert(all.take(i + 1).drop_last() =~= all.take(i as int));
        assert(all.take(i + 1).last() == tcs@[i as int].tree());
        take_tool_call(reply, &tcs[i], out);
        proof {
            let e = on_tool_call(d.reply, tcs@[i as int].tree());
            assert(was + d.events + e.events =~= was + (d.events + e.events));
        }
        i = i + 1;
    }
    assert(all.take(i as int) =~= all);
}

/// Completes all calls.
pub fn complete_calls(reply: &mut Reply, out: &mut Fed)
    requires
        !old(out).done,
        old(out).error is None,
    ensures
        ({
            let d = calls_completed(old(reply)@);
            &&& final(reply)@ == d.reply
            &&& final(out).is(fed_on(provider_event_views(old(out).events@), d))
        }),
    decreases old(reply)@.calls.len(),
{
    let ghost was = provider_event_views(out.events@);
    let ghost start = reply@;
    assert(was + Seq::empty() =~= was);
    match reply.calls.pop_first() {
        None => {},
        Some(a) => {
            match read_input(a.json.as_str()) {
                Ok(input) => {
                    let ghost e = EventView::ToolUseComplete {
                        id: a.id@,
                        name: a.name@,
                        input: input.tree(),
                    };
                    out.push(ProviderEvent::ToolUseComplete { id: a.id, name: a.name, input });
                    complete_calls(reply, out);
                    proof {
                        let rest = calls_completed(
                            ReplyView { usage: start.usage, calls: start.calls.skip(1) },
                        );
                        assert(was.push(e) + rest.events =~= was + (seq![e] + rest.events));
                    }
                },
                Err(e) => {
                    out.fail(cat2("tool_call JSON 不完整: ", e.as_str()));
                },
            }
        },
    }
}

/// Takes one choice in.
pub fn take_choice(reply: &mut Reply, c: &OpenAiChoice, out: &mut Fed)
    requires
        !old(out).done,
        old(out).error is None,
    ensures
        ({
            let d = on_choice(old(reply)@, c@);
            &&& final(reply)@ == d.reply
            &&& final(out).is(fed_on(provider_event_views(old(out).events@), d))
        }),
{
    let ghost was = provider_event_views(out.events@);
    let ghost start = reply@;
    let ghost delta = c.delta.tree();
    let ghost texts = piece_events(delta);
    let ghost calls = on_tool_calls(start, piece_calls(delta));
    if let Some(t) = c.delta.text_of("reasoning_content") {
        if !t.is_empty() {
            out.push(ProviderEvent::ThinkingDelta(t.to_owned()));
        }
    }
    if let Some(t) = c.delta.text_of("content") {
        if !t.is_empty() {
            out.push(ProviderEvent::TextDelta(t.to_owned()));
        }
    }
    assert(provider_event_views(out.events@) =~= was + texts);
    assert(was + texts + Seq::empty() =~= was + texts);
    if let Some(t) = c.delta.get("tool_calls") {
        if let Some(tcs) = t.as_array() {
            take_tool_calls(reply, tcs, out);
        }
    }
    assert(reply@ == calls.reply);
    assert(provider_event_views(out.events@) =~= was + texts + calls.events);
    let ghost pieces = went_on(start, texts).and(calls);
    assert(was + texts + calls.events =~= was + pieces.events);
    proof {
        lemma_calls_go_on(start, piece_calls(delta));
    }
    if c.finish_reason.is_some() {
        complete_calls(reply, out);
        proof {
            let done = calls_completed(pieces.reply);
            assert(was + pieces.events + done.events =~= was + (pieces.events + done.events));
        }
    }
}

/// Pieces of calls never end a reply.
proof fn lemma_calls_go_on(r: ReplyView, tcs: Seq<JsonTree>)
    ensures
        !on_tool_calls(r, tcs).over(),
    decreases tcs.len(),
{
    if tcs.len() > 0 {
        lemma_calls_go_on(r, tcs.drop_last());
    }
}

/// Once a choice has failed, no later choice changes anything.
proof fn lemma_choices_stopped(r: ReplyView, cs: Seq<ChoiceView>, n: int)
    requires
        0 <= n <= cs.len(),
        on_choices(r, cs.take(n)).over(),
    ensures
        on_choices(r, cs) == on_choices(r, cs.take(n)),
    decreases cs.len(),
{
    if n < cs.len() {
        assert(cs.drop_last().take(n) =~= cs.take(n));
        lemma_choices_stopped(r, cs.drop_last(), n);
    } else {
        assert(cs.take(n) =~= cs);
    }
}

/// Takes choices in, one after the other.
fn take_choices(reply: &mut Reply, cs: &Vec<OpenAiChoice>, out: &mut Fed)
    requires
        !old(out).done,
        old(out).error is None,
    ensures
        ({
            let d = on_choices(old(reply)@, choice_views(cs@));
            &&& final(reply)@ == d.reply
            &&& final(out).is(fed_on(provider_event_views(old(out).events@), d))
        }),
{
    let ghost was = provider_event_views(out.events@);
    let ghost start = reply@;
    let ghost all = choice_views(cs@);
    let mut i: usize = 0;
    assert(all.take(0) =~= Seq::empty());
    assert(all.take(all.len() as int) =~= all);
    assert(was + Seq::empty() =~= was);
    while i < cs.len()
        invariant_except_break
            !on_choices(start, all.take(i as int)).over(),
        invariant
            i <= cs@.len(),
            all == choice_views(cs@),
            all.take(all.len() as int) == all,
            reply@ == on_choices(start, all.take(i as int)).reply,
            out.is(fed_on(was, on_choices(start, all.take(i as int)))),
        ensures
            reply@ == on_choices(start, all).reply,
            out.is(fed_on(was, on_choices(start, all))),
        decreases cs@.len() - i,
    {
        let ghost d = on_choices(start, all.take(i as int));
        assert(all.take(i + 1).drop_last() =~= all.take(i as int));
        assert(all.take(i + 1).last() == cs@[i as int]@);
        take_choice(reply, &cs[i], out);
        proof {
            let e = on_choice(d.reply, cs@[i as int]@);
            assert(was + d.events + e.events =~= was + (d.events + e.events));
        }
        i = i + 1;
        if out.error.is_some() {
            proof {
                lemma_choices_stopped(start, all, i as int);
            }
            break;
        }
        proof {
            lemma_choices_not_done(start, all.take(i as int));
        }
    }
}

/// No choice says that the whole reply is over.
proof fn lemma_choices_not_done(r: ReplyView, cs: Seq<ChoiceView>)
    ensures
        !on_choices(r, cs).done,
    decreases cs.len(),
{
    if cs.len() > 0 {
        lemma_choices_not_done(r, cs.drop_last());
        let before = on_choices(r, cs.drop_last());
        let delta = cs.last().delta;
        lemma_calls_go_on(before.reply, piece_calls(delta));
        lemma_completed_not_done(on_tool_calls(before.reply, piece_calls(delta)).reply);
    }
}

/// Completing calls does not say that the whole reply is over.
proof fn lemma_completed_not_done(r: ReplyView)
    ensures
        !calls_completed(r).done,
    decreases r.calls.len(),
{
    if r.calls.len() > 0 {
        lemma_completed_not_done(ReplyView { usage: r.usage, calls: r.calls.skip(1) });
    }
}

/// Takes one chunk in.
pub fn take_chunk(reply: &mut Reply, f: &OpenAiChunk, out: &mut Fed)
    requires
        !old(out).done,
        old(out).error is None,
    ensures
        ({
            let d = on_chunk(old(reply)@, f@);
            &&& final(reply)@ == d.reply
            &&& final(out).is(fed_on(provider_event_views(old(out).events@), d))
        }),
{
    assert(provider_event_views(out.events@) + Seq::empty() =~= provider_event_views(out.events@));
    if let Some(e) = &f.error {
        let msg: String = match e.text_of("message") {
            Some(m) => m.to_owned(),
            None => e.to_text(),
        };
        out.fail(msg);
        return;
    }
    if let Some(u) = &f.usage {
        reply.usage = read_usage(u);
    }
    take_choices(reply, &f.choices, out);
}

/// Takes one event in: its data without white space at its ends, and what that was read as.
pub fn take_data(reply: &mut Reply, data: &str, read: &Result<OpenAiChunk, String>, out: &mut Fed)
    requires
        !old(out).done,
        old(out).error is None,
    ensures
        ({
            let d = on_data(old(reply)@, data@, chunk_read(*read));
            &&& final(reply)@ == d.reply
            &&& final(out).is(fed_on(provider_event_views(old(out).events@), d))
        }),
{
    assert(provider_event_views(out.events@) + Seq::empty() =~= provider_event_views(out.events@));
    if data.is_empty() {
        return;
    }
    if same(data, "[DONE]") {
        out.done = true;
        return;
    }
    match read {
        Ok(f) => {
            take_chunk(reply, f, out);
        },
        Err(e) => {
            out.fail(unreadable_text(e.as_str(), data));
        },
    }
}

/// Once reading is over, no later event changes anything.
proof fn lemma_stopped(r: ReplyView, items: Seq<(Seq<char>, ChunkRead)>, n: int)
    requires
        0 <= n <= items.len(),
        on_reads(r, items.take(n)).over(),
    ensures
        on_reads(r, items) == on_reads(r, items.take(n)),
    decreases items.len(),
{
    if n < items.len() {
        assert(items.drop_last().take(n) =~= items.take(n));
        lemma_stopped(r, items.drop_last(), n);
    } else {
        assert(items.take(n) =~= items);
    }
}

/// A reply as it arrives, byte by byte.
#[derive(Debug)]
pub struct OpenAiStream {
    buffer: EventBuffer,
    reply: Reply,
}

impl OpenAiStream {
    /// The bytes that are not read yet.
    pub closed spec fn pending(&self) -> Seq<u8> {
        self.buffer.pending()
    }

    /// How far the reply is.
    pub closed spec fn reply(&self) -> ReplyView {
        self.reply@
    }

    /// A reply of which nothing has come.
    pub fn new() -> (r: OpenAiStream)
        ensures
            r.pending() == Seq::<u8>::empty(),
            r.reply() == fresh_reply(),
    {
        OpenAiStream { buffer: EventBuffer::new(), reply: Reply::new() }
    }

    /// Takes one more piece of the stream: the data of the events that are complete with it, without
    /// white space at its ends, each to be read as a chunk and handed to [`OpenAiStream::take`].
    pub fn feed(&mut self, chunk: &[u8]) -> (r: Vec<String>)
        ensures
            ({
                let all = old(self).pending() + chunk@;
                &&& views(r@) == event_data(parsed_events(valid_text(all)))
                &&& final(self).pending() == unread(all)
                &&& final(self).reply() == old(self).reply()
            }),
    {
        let events = self.buffer.feed(chunk);
        let mut r: Vec<String> = Vec::new();
        let mut i: usize = 0;
        while i < events.len()
            invariant
                i <= events@.len(),
                views(r@) == event_data(event_views(events@)).take(i as int),
            decreases events@.len() - i,
        {
            r.push(trimmed(events[i].data.as_str()));
            proof {
                let all = event_data(event_views(events@));
                assert(all.take(i + 1) =~= all.take(i as int).push(trim(events@[i as int].data@)));
                assert(views(r@) =~= all.take(i as int).push(trim(events@[i as int].data@)));
            }
            i = i + 1;
        }
        proof {
            let all = event_data(event_views(events@));
            assert(all.take(i as int) =~= all);
        }
        r
    }

    /// Takes the data of events in, each with what it was read as, up to the first that fails or
    /// ends the reply. After that nothing more is to be taken.
    pub fn take(&mut self, items: &Vec<(String, Result<OpenAiChunk, String>)>) -> (r: Fed)
        ensures
            ({
                let d = on_reads(old(self).reply(), chunk_reads(items@));
                &&& r.is(d)
                &&& final(self).reply() == d.reply
                &&& final(self).pending() == old(self).pending()
            }),
    {
        let ghost all = chunk_reads(items@);
        let ghost start = self.reply@;
        let ghost kept = self.buffer.pending();
        let mut out = Fed::new();
        let mut i: usize = 0;
        assert(all.take(0) =~= Seq::empty());
        assert(all.take(all.len() as int) =~= all);
        while i < items.len()
            invariant_except_break
                !on_reads(start, all.take(i as int)).over(),
            invariant
                i <= items@.len(),
                all.take(all.len() as int) == all,
                all == chunk_reads(items@),
                self.reply@ == on_reads(start, all.take(i as int)).reply,
                out.is(on_reads(start, all.take(i as int))),
                self.buffer.pending() == kept,
            ensures
                self.reply@ == on_reads(start, all).reply,
                out.is(on_reads(start, all)),
                self.buffer.pending() == kept,
            decreases items@.len() - i,
        {
            proof {
                assert(all.take(i + 1).drop_last() =~= all.take(i as int));
                assert(all.take(i + 1).last() == all[i as int]);
            }
            take_data(&mut self.reply, items[i].0.as_str(), &items[i].1, &mut out);
            i = i + 1;
            if out.error.is_some() || out.done {
                proof {
                    lemma_stopped(start, all, i as int);
                }
                break;
            }
        }
        out
    }

    /// The reply is over: what it used, and how many bytes stayed unread.
    pub fn finish(&self) -> (r: (ProviderEvent, usize))
        ensures
            r.0@ == (EventView::Completed { usage: self.reply().usage }),
            r.1 == self.pending().len(),
    {
        (ProviderEvent::Completed { usage: self.reply.usage }, self.buffer.pending_len())
    }
}

} // verus!
