//! Replies in Anthropic's wire format.
use vstd::prelude::*;
use vstd::string::*;
use crate::json::{json_text, opt_tree, Json, JsonTree};
use crate::message::Usage;
use crate::provider::anthropic_types::{build_request, request_for, wire_request};
use crate::provider::bytes::{unread, valid_text, EventBuffer};
use crate::provider::calls::{
    call_at, call_input, drop_call, has_call, put_call, read_input, AccView, ToolAcc,
};
use crate::provider::sse::{event_views, parsed_events, SseEvent};
use crate::provider::stream::{
    failed, fresh_reply, text_or_empty, text_or_none, unreadable, unreadable_text, went_on, Decoded,
    Fed, Reply, ReplyView,
};
use crate::provider::{
    endpoint, provider_event_views, without_slashes, EventView, HttpRequest, HttpView, ProviderEvent,
    RequestContext,
};
use crate::text::{cat2, same, views};

verus! {

/// The version of the wire format.
pub const ANTHROPIC_VERSION: &'static str = "2023-06-01";

/// A service that speaks Anthropic's wire format.
#[derive(Debug)]
pub struct AnthropicProvider {
    pub base_url: String,
    pub model: String,
    pub max_tokens: u32,
    pub api_key: String,
}

impl AnthropicProvider {
    /// A service at `base_url`.
    pub fn new(base_url: String, model: String, max_tokens: u32, api_key: String) -> (r:
        AnthropicProvider)
        ensures
            r == (AnthropicProvider { base_url, model, max_tokens, api_key }),
    {
        AnthropicProvider { base_url, model, max_tokens, api_key }
    }

    /// The address that requests go to.
    pub fn endpoint(&self) -> (r: String)
        ensures
            r@ == without_slashes(self.base_url@) + "/v1/messages"@,
    {
        endpoint(self.base_url.as_str(), "/v1/messages")
    }

    /// The request that a context makes.
    pub fn request(&self, ctx: &RequestContext) -> (r: HttpRequest)
        ensures
            r@ == (HttpView {
                url: without_slashes(self.base_url@) + "/v1/messages"@,
                headers: seq![
                    ("x-api-key"@, self.api_key@),
                    ("anthropic-version"@, ANTHROPIC_VERSION@),
                    ("Content-Type"@, "application/json"@),
                ],
                body: json_text(wire_request(request_for(ctx@, self.model@, self.max_tokens))),
            }),
    {
        let body = build_request(ctx, self.model.as_str(), self.max_tokens).to_json().to_text();
        let mut headers: Vec<(String, String)> = Vec::new();
        headers.push(("x-api-key".to_owned(), self.api_key.clone()));
        headers.push(("anthropic-version".to_owned(), ANTHROPIC_VERSION.to_owned()));
        headers.push(("Content-Type".to_owned(), "application/json".to_owned()));
        let r = HttpRequest { url: self.endpoint(), headers, body };
        assert(r@.headers =~= seq![
            ("x-api-key"@, self.api_key@),
            ("anthropic-version"@, ANTHROPIC_VERSION@),
            ("Content-Type"@, "application/json"@),
        ]);
        r
    }
}

/// A frame of a reply.
#[derive(Debug, PartialEq)]
pub struct SseFrame {
    pub kind: String,
    pub index: Option<u64>,
    pub delta: Option<Json>,
    pub content_block: Option<Json>,
    pub message: Option<Json>,
    pub usage: Option<Json>,
    pub error: Option<Json>,
}

/// What a frame holds.
#[verifier::ext_equal]
pub struct FrameView {
    pub kind: Seq<char>,
    pub index: Option<u64>,
    pub delta: Option<JsonTree>,
    pub content_block: Option<JsonTree>,
    pub message: Option<JsonTree>,
    pub usage: Option<JsonTree>,
    pub error: Option<JsonTree>,
}

impl View for SseFrame {
    type V = FrameView;

    open spec fn view(&self) -> FrameView {
        FrameView {
            kind: self.kind@,
            index: self.index,
            delta: opt_tree(self.delta),
            content_block: opt_tree(self.content_block),
            message: opt_tree(self.message),
            usage: opt_tree(self.usage),
            error: opt_tree(self.error),
        }
    }
}

/// What the data of an event was read as: a frame, or why it is none.
pub type FrameRead = Result<FrameView, Seq<char>>;

/// What the data of an event was read as.
pub open spec fn frame_read(r: Result<SseFrame, String>) -> FrameRead {
    match r {
        Ok(f) => Ok(f@),
        Err(m) => Err(m@),
    }
}

/// The data of events, each with what it was read as.
pub open spec fn frame_reads(v: Seq<(String, Result<SseFrame, String>)>) -> Seq<
    (Seq<char>, FrameRead),
> {
    Seq::new(v.len(), |i: int| (v[i].0@, frame_read(v[i].1)))
}

/// The index of the block that a frame speaks of.
pub open spec fn frame_index(f: FrameView) -> u64 {
    match f.index {
        Some(n) => n,
        None => 0,
    }
}

/// A count in `u`, or else the one known before.
pub open spec fn count_or(u: JsonTree, key: Seq<char>, before: u64) -> u64 {
    match u.unsigned_of(key) {
        Some(n) => n,
        None => before,
    }
}

/// The start of a message: the tokens of the prompt, and those the cache had.
pub open spec fn on_message_start(r: ReplyView, f: FrameView) -> Decoded {
    match f.message {
        Some(m) => match m.get("usage"@) {
            Some(u) => went_on(
                ReplyView {
                    usage: Usage {
                        input_tokens: count_or(u, "input_tokens"@, r.usage.input_tokens),
                        cache_hit_tokens: count_or(
                            u,
                            "cache_read_input_tokens"@,
                            r.usage.cache_hit_tokens,
                        ),
                        ..r.usage
                    },
                    calls: r.calls,
                },
                Seq::empty(),
            ),
            None => went_on(r, Seq::empty()),
        },
        None => went_on(r, Seq::empty()),
    }
}

/// The start of a block: a call begins with its id and name; other blocks begin silently.
pub open spec fn on_block_start(r: ReplyView, f: FrameView) -> Decoded {
    match f.content_block {
        Some(cb) => if text_or_empty(cb, "type"@) == "tool_use"@ {
            let id = text_or_empty(cb, "id"@);
            let name = text_or_empty(cb, "name"@);
            went_on(
                ReplyView {
                    usage: r.usage,
                    calls: put_call(
                        r.calls,
                        frame_index(f),
                        AccView { id, name, json: Seq::empty() },
                    ),
                },
                seq![EventView::ToolUseStart { id, name }],
            )
        } else {
            went_on(r, Seq::empty())
        },
        None => went_on(r, Seq::empty()),
    }
}

/// A piece of a block: text and thinking are handed on; a piece of the arguments of a call is kept
/// and handed on.
pub open spec fn on_block_delta(r: ReplyView, f: FrameView) -> Decoded {
    match f.delta {
        Some(d) => {
            let kind = text_or_empty(d, "type"@);
            let idx = frame_index(f);
            if kind == "text_delta"@ {
                match d.text_of("text"@) {
                    Some(t) => went_on(r, seq![EventView::TextDelta(t)]),
                    None => went_on(r, Seq::empty()),
                }
            } else if kind == "thinking_delta"@ {
                match d.text_of("thinking"@) {
                    Some(t) => went_on(r, seq![EventView::ThinkingDelta(t)]),
                    None => went_on(r, Seq::empty()),
                }
            } else if kind == "input_json_delta"@ {
                match d.text_of("partial_json"@) {
                    Some(p) => if has_call(r.calls, idx) {
                        let a = call_at(r.calls, idx);
                        went_on(
                            ReplyView {
                                usage: r.usage,
                                calls: put_call(
                                    r.calls,
                                    idx,
                                    AccView { id: a.id, name: a.name, json: a.json + p },
                                ),
                            },
                            seq![EventView::ToolUseDelta { id: a.id, partial_json: p }],
                        )
                    } else {
                        went_on(r, Seq::empty())
                    },
                    None => went_on(r, Seq::empty()),
                }
            } else {
                went_on(r, Seq::empty())
            }
        },
        None => went_on(r, Seq::empty()),
    }
}

/// The end of a block: a call is complete when its arguments can be read.
pub open spec fn on_block_stop(r: ReplyView, f: FrameView) -> Decoded {
    let idx = frame_index(f);
    if has_call(r.calls, idx) {
        let a = call_at(r.calls, idx);
        let after = ReplyView { usage: r.usage, calls: drop_call(r.calls, idx) };
        match call_input(a.json) {
            Ok(input) => went_on(
                after,
                seq![EventView::ToolUseComplete { id: a.id, name: a.name, input }],
            ),
            Err(e) => failed(after, "tool_use JSON 不完整: "@ + e),
        }
    } else {
        went_on(r, Seq::empty())
    }
}

/// The end of a message: the tokens of the answer.
pub open spec fn on_message_delta(r: ReplyView, f: FrameView) -> Decoded {
    match f.usage {
        Some(u) => went_on(
            ReplyView {
                usage: Usage {
                    output_tokens: count_or(u, "output_tokens"@, r.usage.output_tokens),
                    ..r.usage
                },
                calls: r.calls,
            },
            Seq::empty(),
        ),
        None => went_on(r, Seq::empty()),
    }
}

/// The message of an error frame.
pub open spec fn error_text(f: FrameView) -> Seq<char> {
    match f.error {
        Some(e) => match e.text_of("message"@) {
            Some(m) => m,
            None => "未知 provider 错误"@,
        },
        None => "未知 provider 错误"@,
    }
}

/// What a frame of sound shape leads to. Frames of other kinds are passed over.
pub open spec fn on_frame(r: ReplyView, f: FrameView) -> Decoded {
    let kind = f.kind;
    if kind == "message_start"@ {
        on_message_start(r, f)
    } else if kind == "content_block_start"@ {
        on_block_start(r, f)
    } else if kind == "content_block_delta"@ {
        on_block_delta(r, f)
    } else if kind == "content_block_stop"@ {
        on_block_stop(r, f)
    } else if kind == "message_delta"@ {
        on_message_delta(r, f)
    } else if kind == "error"@ {
        failed(r, error_text(f))
    } else {
        went_on(r, Seq::empty())
    }
}

/// What an event leads to, given what its data was read as. An event without data is passed over.
pub open spec fn on_data(r: ReplyView, data: Seq<char>, read: FrameRead) -> Decoded {
    if data.len() == 0 {
        went_on(r, Seq::empty())
    } else {
        match read {
            Ok(f) => on_frame(r, f),
            Err(e) => failed(r, unreadable(e, data)),
        }
    }
}

/// What a run of events leads to, given their data and what that was read as: one after the other,
/// up to the first that cannot be read.
pub open spec fn on_reads(r: ReplyView, items: Seq<(Seq<char>, FrameRead)>) -> Decoded
    decreases items.len(),
{
    if items.len() == 0 {
        went_on(r, Seq::empty())
    } else {
        let before = on_reads(r, items.drop_last());
        if before.over() {
            before
        } else {
            before.and(on_data(before.reply, items.last().0, items.last().1))
        }
    }
}

/// The data of events, in order.
pub open spec fn event_data(evs: Seq<SseEvent>) -> Seq<Seq<char>> {
    evs.map_values(|e: SseEvent| e.data)
}

/// Takes one frame in.
pub fn take_frame(reply: &mut Reply, f: &SseFrame, out: &mut Fed)
    requires
        !old(out).done,
        old(out).error is None,
    ensures
        ({
            let d = on_frame(old(reply)@, f@);
            &&& final(reply)@ == d.reply
            &&& final(out).is(
                Decoded { events: provider_event_views(old(out).events@) + d.events, ..d },
            )
        }),
{
    let ghost before = provider_event_views(out.events@);
    assert(before + Seq::empty() =~= before);
    let kind = f.kind.as_str();
    let idx: u64 = match f.index {
        Some(n) => n,
        None => 0,
    };
    if same(kind, "message_start") {
        if let Some(m) = &f.message {
            if let Some(u) = m.get("usage") {
                if let Some(n) = u.u64_of("input_tokens") {
                    reply.usage.input_tokens = n;
                }
                if let Some(n) = u.u64_of("cache_read_input_tokens") {
                    reply.usage.cache_hit_tokens = n;
                }
            }
        }
    } else if same(kind, "content_block_start") {
        if let Some(cb) = &f.content_block {
            let ty = text_or_none(cb, "type");
            if same(ty.as_str(), "tool_use") {
                let id = text_or_none(cb, "id");
                let name = text_or_none(cb, "name");
                reply.calls.insert(
                    idx,
                    ToolAcc { id: id.clone(), name: name.clone(), json: String::new() },
                );
                out.push(ProviderEvent::ToolUseStart { id, name });
            }
        }
    } else if same(kind, "content_block_delta") {
        if let Some(d) = &f.delta {
            let ty = text_or_none(d, "type");
            if same(ty.as_str(), "text_delta") {
                if let Some(t) = d.text_of("text") {
                    out.push(ProviderEvent::TextDelta(t.to_owned()));
                }
            } else if same(ty.as_str(), "thinking_delta") {
                if let Some(t) = d.text_of("thinking") {
                    out.push(ProviderEvent::ThinkingDelta(t.to_owned()));
                }
            } else if same(ty.as_str(), "input_json_delta") {
                if let Some(p) = d.text_of("partial_json") {
                    if let Some(id) = reply.calls.extend(idx, p) {
                        out.push(ProviderEvent::ToolUseDelta { id, partial_json: p.to_owned() });
                    }
                }
            }
        }
    } else if same(kind, "content_block_stop") {
        if let Some(a) = reply.calls.remove(idx) {
            match read_input(a.json.as_str()) {
                Ok(input) => {
                    out.push(ProviderEvent::ToolUseComplete { id: a.id, name: a.name, input });
                },
                Err(e) => {
                    out.fail(cat2("tool_use JSON 不完整: ", e.as_str()));
                },
            }
        }
    } else if same(kind, "message_delta") {
        if let Some(u) = &f.usage {
            if let Some(n) = u.u64_of("output_tokens") {
                reply.usage.output_tokens = n;
            }
        }
    } else if same(kind, "error") {
        let msg: String = match &f.error {
            Some(e) => match e.text_of("message") {
                Some(m) => m.to_owned(),
                None => "未知 provider 错误".to_owned(),
            },
            None => "未知 provider 错误".to_owned(),
        };
        out.fail(msg);
    }
    proof {
        let d = on_frame(old(reply)@, f@);
        assert(provider_event_views(out.events@) =~= before + d.events);
    }
}

/// Takes one event in: its data, and what that was read as.
pub fn take_data(reply: &mut Reply, data: &str, read: &Result<SseFrame, String>, out: &mut Fed)
    requires
        !old(out).done,
        old(out).error is None,
    ensures
        ({
            let d = on_data(old(reply)@, data@, frame_read(*read));
            &&& final(reply)@ == d.reply
            &&& final(out).is(
                Decoded { events: provider_event_views(old(out).events@) + d.events, ..d },
            )
        }),
{
    assert(provider_event_views(out.events@) + Seq::empty() =~= provider_event_views(out.events@));
    if data.is_empty() {
        return;
    }
    match read {
        Ok(f) => {
            take_frame(reply, f, out);
        },
        Err(e) => {
            out.fail(unreadable_text(e.as_str(), data));
        },
    }
}

/// A reply as it arrives, byte by byte.
#[derive(Debug)]
pub struct AnthropicStream {
    buffer: EventBuffer,
    reply: Reply,
}

impl AnthropicStream {
    /// The bytes that are not read yet.
    pub closed spec fn pending(&self) -> Seq<u8> {
        self.buffer.pending()
    }

    /// How far the reply is.
    pub closed spec fn reply(&self) -> ReplyView {
        self.reply@
    }

    /// A reply of which nothing has come.
    pub fn new() -> (r: AnthropicStream)
        ensures
            r.pending() == Seq::<u8>::empty(),
            r.reply() == fresh_reply(),
    {
        AnthropicStream { buffer: EventBuffer::new(), reply: Reply::new() }
    }

    /// Takes one more piece of the stream: the data of the events that are complete with it, each
    /// to be read as a frame and handed to [`AnthropicStream::take`].
    pub fn feed(&mut self, chunk: &[u8]) -> (r: Vec<String>)
        ensures
            ({
                let all = old(self).pending() + chunk@;
                &&& views(r@) == event_data(parsed_events(valid_text(all)))
                &&& final(self).pending() == unread(all)
                &&& final(self).reply() == old(self).reply()
            }),
    {
        let events = self.buffer.feed(chunk);
        let mut r: Vec<String> = Vec::new();
        let mut i: usize = 0;
        while i < events.len()
            invariant
                i <= events@.len(),
                views(r@) == event_data(event_views(events@)).take(i as int),
            decreases events@.len() - i,
        {
            r.push(events[i].data.clone());
            proof {
                let all = event_data(event_views(events@));
                assert(all.take(i + 1) =~= all.take(i as int).push(events@[i as int].data@));
                assert(views(r@) =~= all.take(i as int).push(events@[i as int].data@));
            }
            i = i + 1;
        }
        proof {
            let all = event_data(event_views(events@));
            assert(all.take(i as int) =~= all);
        }
        r
    }

    /// Takes the data of events in, each with what it was read as, up to the first that fails. After
    /// an error nothing more is to be taken.
    pub fn take(&mut self, items: &Vec<(String, Result<SseFrame, String>)>) -> (r: Fed)
        ensures
            ({
                let d = on_reads(old(self).reply(), frame_reads(items@));
                &&& r.is(d)
                &&& final(self).reply() == d.reply
                &&& final(self).pending() == old(self).pending()
            }),
    {
        let ghost all = frame_reads(items@);
        let ghost start = self.reply@;
        let ghost kept = self.buffer.pending();
        let mut out = Fed::new();
        let mut i: usize = 0;
        assert(all.take(0) =~= Seq::empty());
        assert(all.take(all.len() as int) =~= all);
        while i < items.len()
            invariant_except_break
                !on_reads(start, all.take(i as int)).over(),
            invariant
                i <= items@.len(),
                all.take(all.len() as int) == all,
                all == frame_reads(items@),
                self.reply@ == on_reads(start, all.take(i as int)).reply,
                out.is(on_reads(start, all.take(i as int))),
                self.buffer.pending() == kept,
            ensures
                self.reply@ == on_reads(start, all).reply,
                out.is(on_reads(start, all)),
                self.buffer.pending() == kept,
            decreases items@.len() - i,
        {
            proof {
                assert(all.take(i + 1).drop_last() =~= all.take(i as int));
                assert(all.take(i + 1).last() == all[i as int]);
            }
            take_data(&mut self.reply, items[i].0.as_str(), &items[i].1, &mut out);
            i = i + 1;
            if out.error.is_some() {
                proof {
                    lemma_stopped(start, all, i as int);
                }
                break;
            }
        }
        out
    }

    /// The reply is over: what it used, and how many bytes stayed unread.
    pub fn finish(&self) -> (r: (ProviderEvent, usize))
        ensures
            r.0@ == (EventView::Completed { usage: self.reply().usage }),
            r.1 == self.pending().len(),
    {
        (ProviderEvent::Completed { usage: self.reply.usage }, self.buffer.pending_len())
    }
}

/// Once reading is over, no later event changes anything.
proof fn lemma_stopped(r: ReplyView, items: Seq<(Seq<char>, FrameRead)>, n: int)
    requires
        0 <= n <= items.len(),
        on_reads(r, items.take(n)).over(),
    ensures
        on_reads(r, items) == on_reads(r, items.take(n)),
    decreases items.len(),
{
    if n < items.len() {
        assert(items.drop_last().take(n) =~= items.take(n));
        lemma_stopped(r, items.drop_last(), n);
    } else {
        assert(items.take(n) =~= items);
    }
}

} // verus!
