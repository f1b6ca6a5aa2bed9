//! Requests in OpenAI's wire format.
use vstd::prelude::*;
use vstd::string::*;
use crate::json::{
    add_member, json_text, law_member_is_the_first_of_its_name, lemma_array, lemma_get, lemma_get_one,
    lemma_get_with, object1, text_json, trees, with_member, Json, JsonNumber, JsonTree,
};
use crate::message::{Block, BlockView, Message, MessageView, Role};
use crate::provider::{RequestContext, RequestView};
use crate::text::{cat2, opt_text};
use crate::tools::DefinitionView;

verus! {

/// A request. Its fields are sent in this order; an optional field that is not set is not sent.
#[derive(Debug)]
pub struct OpenAiRequest {
    pub model: String,
    pub messages: Vec<OpenAiMessage>,
    pub tools: Vec<OpenAiTool>,
    pub stream: bool,
    pub stream_options: StreamOptions,
    pub max_tokens: Option<u32>,
    pub thinking: Option<String>,
    pub reasoning_effort: Option<String>,
    pub user_id: Option<String>,
}

/// What the stream is to carry besides the answer.
#[derive(Debug, Clone, Copy, PartialEq, Eq, Structural)]
pub struct StreamOptions {
    pub include_usage: bool,
}

/// A tool as the service is told of it.
#[derive(Debug)]
pub struct OpenAiTool {
    pub kind: String,
    pub function: OpenAiFunction,
}

/// The function of a tool.
#[derive(Debug)]
pub struct OpenAiFunction {
    pub name: String,
    pub description: String,
    pub parameters: Json,
}

/// A message as it is sent. Its role says which of the optional fields it has.
#[derive(Debug)]
pub struct OpenAiMessage {
    pub role: String,
    pub content: Option<String>,
    pub reasoning_content: Option<String>,
    pub tool_calls: Option<Vec<OpenAiToolCall>>,
    pub tool_call_id: Option<String>,
}

/// A call in a message.
#[derive(Debug)]
pub struct OpenAiToolCall {
    pub id: String,
    pub kind: String,
    pub function: OpenAiToolCallFn,
}

/// What a call calls.
#[derive(Debug)]
pub struct OpenAiToolCallFn {
    pub name: String,
    /// The arguments, as JSON text.
    pub arguments: String,
}

/// What a request may ask of the model; what is not set is not sent.
#[derive(Debug)]
pub struct OpenAiParams {
    pub max_tokens: Option<u32>,
    pub thinking: Option<String>,
    pub reasoning_effort: Option<String>,
    pub user_id: Option<String>,
}

impl Default for OpenAiParams {
    fn default() -> (r: OpenAiParams)
        ensures
            r.max_tokens is None,
            r.thinking is None,
            r.reasoning_effort is None,
            r.user_id is None,
    {
        OpenAiParams { max_tokens: None, thinking: None, reasoning_effort: None, user_id: None }
    }
}

/// What a sent call holds.
#[verifier::ext_equal]
pub struct SentCall {
    pub id: Seq<char>,
    pub kind: Seq<char>,
    pub name: Seq<char>,
    pub arguments: Seq<char>,
}

impl View for OpenAiToolCall {
    type V = SentCall;

    open spec fn view(&self) -> SentCall {
        SentCall {
            id: self.id@,
            kind: self.kind@,
            name: self.function.name@,
            arguments: self.function.arguments@,
        }
    }
}

/// The views of a list of calls.
pub open spec fn sent_calls(v: Seq<OpenAiToolCall>) -> Seq<SentCall> {
    Seq::new(v.len(), |i: int| v[i]@)
}

/// What a sent message holds.
#[verifier::ext_equal]
pub struct SentMessage {
    pub role: Seq<char>,
    pub content: Option<Seq<char>>,
    pub reasoning_content: Option<Seq<char>>,
    pub tool_calls: Option<Seq<SentCall>>,
    pub tool_call_id: Option<Seq<char>>,
}

impl View for OpenAiMessage {
    type V = SentMessage;

    open spec fn view(&self) -> SentMessage {
        SentMessage {
            role: self.role@,
            content: opt_text(self.content),
            reasoning_content: opt_text(self.reasoning_content),
            tool_calls: match self.tool_calls {
                Some(v) => Some(sent_calls(v@)),
                None => None,
            },
            tool_call_id: opt_text(self.tool_call_id),
        }
    }
}

/// The views of a list of messages.
pub open spec fn sent_messages(v: Seq<OpenAiMessage>) -> Seq<SentMessage> {
    Seq::new(v.len(), |i: int| v[i]@)
}

/// What a sent tool holds.
#[verifier::ext_equal]
pub struct SentTool {
    pub kind: Seq<char>,
    pub function: DefinitionView,
}

impl View for OpenAiTool {
    type V = SentTool;

    open spec fn view(&self) -> SentTool {
        SentTool {
            kind: self.kind@,
            function: DefinitionView {
                name: self.function.name@,
                description: self.function.description@,
                input_schema: self.function.parameters.tree(),
            },
        }
    }
}

/// The views of a list of tools.
pub open spec fn sent_tools(v: Seq<OpenAiTool>) -> Seq<SentTool> {
    Seq::new(v.len(), |i: int| v[i]@)
}

/// What a request asks of the model.
#[verifier::ext_equal]
pub struct ParamsView {
    pub max_tokens: Option<u32>,
    pub thinking: Option<Seq<char>>,
    pub reasoning_effort: Option<Seq<char>>,
    pub user_id: Option<Seq<char>>,
}

impl View for OpenAiParams {
    type V = ParamsView;

    open spec fn view(&self) -> ParamsView {
        ParamsView {
            max_tokens: self.max_tokens,
            thinking: opt_text(self.thinking),
            reasoning_effort: opt_text(self.reasoning_effort),
            user_id: opt_text(self.user_id),
        }
    }
}

/// What a request holds.
#[verifier::ext_equal]
pub struct SentRequest {
    pub model: Seq<char>,
    pub messages: Seq<SentMessage>,
    pub tools: Seq<SentTool>,
    pub stream: bool,
    pub stream_options: StreamOptions,
    pub params: ParamsView,
}

impl View for OpenAiRequest {
    type V = SentRequest;

    open spec fn view(&self) -> SentRequest {
        SentRequest {
            model: self.model@,
            messages: sent_messages(self.messages@),
            tools: sent_tools(self.tools@),
            stream: self.stream,
            stream_options: self.stream_options,
            params: ParamsView {
                max_tokens: self.max_tokens,
                thinking: opt_text(self.thinking),
                reasoning_effort: opt_text(self.reasoning_effort),
                user_id: opt_text(self.user_id),
            },
        }
    }
}

// ---- what is sent ----

/// What marks the result of a failed call, which this format has no field for.
pub const ERROR_PREFIX: &'static str = "[工具执行失败] ";

/// A message of a role that says `content`.
pub open spec fn says(role: Seq<char>, content: Seq<char>) -> SentMessage {
    SentMessage {
        role,
        content: Some(content),
        reasoning_content: None,
        tool_calls: None,
        tool_call_id: None,
    }
}

/// `t` behind what was said so far.
pub open spec fn and_then(before: Option<Seq<char>>, t: Seq<char>) -> Option<Seq<char>> {
    match before {
        Some(b) => Some(b + t),
        None => Some(t),
    }
}

/// The texts among blocks, in a row; nothing where there is none.
pub open spec fn said(bs: Seq<BlockView>) -> Option<Seq<char>>
    decreases bs.len(),
{
    if bs.len() == 0 {
        None
    } else {
        match bs.last() {
            BlockView::Text { text } => and_then(said(bs.drop_last()), text),
            _ => said(bs.drop_last()),
        }
    }
}

/// The thinking among blocks, in a row; nothing where there is none.
pub open spec fn thought(bs: Seq<BlockView>) -> Option<Seq<char>>
    decreases bs.len(),
{
    if bs.len() == 0 {
        None
    } else {
        match bs.last() {
            BlockView::Thinking { reasoning_content } => and_then(
                thought(bs.drop_last()),
                reasoning_content,
            ),
            _ => thought(bs.drop_last()),
        }
    }
}

/// A call as it is sent.
pub open spec fn sent_call(id: Seq<char>, name: Seq<char>, input: JsonTree) -> SentCall {
    SentCall { id, kind: "function"@, name, arguments: json_text(input) }
}

/// The calls among blocks, in order.
pub open spec fn called(bs: Seq<BlockView>) -> Seq<SentCall>
    decreases bs.len(),
{
    if bs.len() == 0 {
        Seq::empty()
    } else {
        match bs.last() {
            BlockView::ToolUse { id, name, input } => called(bs.drop_last()).push(
                sent_call(id, name, input),
            ),
            _ => called(bs.drop_last()),
        }
    }
}

/// A message of the assistant as it is sent, where it says, thinks or calls anything.
pub open spec fn sent_assistant(bs: Seq<BlockView>) -> Option<SentMessage> {
    if said(bs) is None && thought(bs) is None && called(bs).len() == 0 {
        None
    } else {
        Some(
            SentMessage {
                role: "assistant"@,
                content: said(bs),
                reasoning_content: thought(bs),
                tool_calls: if called(bs).len() == 0 {
                    None
                } else {
                    Some(called(bs))
                },
                tool_call_id: None,
            },
        )
    }
}

/// What a user message has made so far: whole messages, and text that waits.
#[verifier::ext_equal]
pub struct UserParts {
    pub out: Seq<SentMessage>,
    pub text: Option<Seq<char>>,
}

impl UserParts {
    /// The messages, the waiting text among them.
    pub open spec fn flushed(self) -> Seq<SentMessage> {
        match self.text {
            Some(t) => self.out.push(says("user"@, t)),
            None => self.out,
        }
    }
}

/// The result of a call as it is sent.
pub open spec fn sent_result(id: Seq<char>, content: Seq<char>, is_error: bool) -> SentMessage {
    SentMessage {
        role: "tool"@,
        content: Some(
            if is_error {
                ERROR_PREFIX@ + content
            } else {
                content
            },
        ),
        reasoning_content: None,
        tool_calls: None,
        tool_call_id: Some(id),
    }
}

/// What the blocks of a user message make: texts in a row are one message, and each result of a
/// call is one of its own.
pub open spec fn user_parts(bs: Seq<BlockView>) -> UserParts
    decreases bs.len(),
{
    if bs.len() == 0 {
        UserParts { out: Seq::empty(), text: None }
    } else {
        let before = user_parts(bs.drop_last());
        match bs.last() {
            BlockView::Text { text } => UserParts {
                out: before.out,
                text: and_then(before.text, text),
            },
            BlockView::ToolResult { tool_use_id, content, is_error } => UserParts {
                out: before.flushed().push(sent_result(tool_use_id, content, is_error)),
                text: None,
            },
            _ => before,
        }
    }
}

/// The messages that one message is sent as.
pub open spec fn sent_as(m: MessageView) -> Seq<SentMessage> {
    match m.role {
        Role::User => user_parts(m.content).flushed(),
        Role::Assistant => match sent_assistant(m.content) {
            Some(s) => seq![s],
            None => Seq::empty(),
        },
    }
}

/// The messages that a conversation is sent as.
pub open spec fn all_sent(ms: Seq<MessageView>) -> Seq<SentMessage>
    decreases ms.len(),
{
    if ms.len() == 0 {
        Seq::empty()
    } else {
        all_sent(ms.drop_last()) + sent_as(ms.last())
    }
}

/// The system prompt as a message, where there is one.
pub open spec fn sent_system(system: Seq<char>) -> Seq<SentMessage> {
    if system.len() == 0 {
        Seq::empty()
    } else {
        seq![says("system"@, system)]
    }
}

/// The request that a context makes.
pub open spec fn request_for(ctx: RequestView, model: Seq<char>, params: ParamsView) -> SentRequest {
    SentRequest {
        model,
        messages: sent_system(ctx.system) + all_sent(ctx.messages),
        tools: ctx.tools.map_values(
            |d: DefinitionView| SentTool { kind: "function"@, function: d },
        ),
        stream: true,
        stream_options: StreamOptions { include_usage: true },
        params,
    }
}

fn plain_message(role: &str, content: String) -> (r: OpenAiMessage)
    ensures
        r@ == says(role@, content@),
{
    OpenAiMessage {
        role: role.to_owned(),
        content: Some(content),
        reasoning_content: None,
        tool_calls: None,
        tool_call_id: None,
    }
}

fn extended(before: Option<String>, t: &str) -> (r: Option<String>)
    ensures
        opt_text(r) == and_then(opt_text(before), t@),
{
    match before {
        Some(b) => Some(cat2(b.as_str(), t)),
        None => Some(t.to_owned()),
    }
}

fn push_message(out: &mut Vec<OpenAiMessage>, m: OpenAiMessage)
    ensures
        sent_messages(final(out)@) == sent_messages(old(out)@).push(m@),
{
    out.push(m);
    assert(sent_messages(out@) =~= sent_messages(old(out)@).push(m@));
}

/// A message of the assistant as it is sent, where it says, thinks or calls anything.
pub fn map_assistant(m: &Message) -> (r: Option<OpenAiMessage>)
    ensures
        match r {
            Some(s) => sent_assistant(m@.content) == Some(s@),
            None => sent_assistant(m@.content) is None,
        },
{
    let ghost all = m@.content;
    let mut reasoning: Option<String> = None;
    let mut text: Option<String> = None;
    let mut calls: Vec<OpenAiToolCall> = Vec::new();
    let mut i: usize = 0;
    assert(all.take(0) =~= Seq::empty());
    assert(sent_calls(calls@) =~= Seq::empty());
    while i < m.content.len()
        invariant
            i <= m.content@.len(),
            all == m@.content,
            all.len() == m.content@.len(),
            opt_text(text) == said(all.take(i as int)),
            opt_text(reasoning) == thought(all.take(i as int)),
            sent_calls(calls@) == called(all.take(i as int)),
        decreases m.content@.len() - i,
    {
        assert(all.take(i + 1).drop_last() =~= all.take(i as int));
        assert(all.take(i + 1).last() == m.content@[i as int]@);
        match &m.content[i] {
            Block::Thinking { reasoning_content } => {
                reasoning = extended(reasoning, reasoning_content.as_str());
            },
            Block::Text { text: t } => {
                text = extended(text, t.as_str());
            },
            Block::ToolUse { id, name, input } => {
                let one = OpenAiToolCall {
                    id: id.clone(),
                    kind: "function".to_owned(),
                    function: OpenAiToolCallFn { name: name.clone(), arguments: input.to_text() },
                };
                let ghost before = calls@;
                calls.push(one);
                assert(sent_calls(calls@) =~= sent_calls(before).push(one@));
            },
            Block::ToolResult { .. } => {},
        }
        i = i + 1;
    }
    assert(all.take(i as int) =~= all);
    if reasoning.is_none() && text.is_none() && calls.len() == 0 {
        return None;
    }
    Some(
        OpenAiMessage {
            role: "assistant".to_owned(),
            content: text,
            reasoning_content: reasoning,
            tool_calls: if calls.len() == 0 {
                None
            } else {
                Some(calls)
            },
            tool_call_id: None,
        },
    )
}

/// The messages that a user message is sent as.
pub fn map_user(m: &Message) -> (r: Vec<OpenAiMessage>)
    ensures
        sent_messages(r@) == user_parts(m@.content).flushed(),
{
    let ghost all = m@.content;
    let mut out: Vec<OpenAiMessage> = Vec::new();
    let mut text: Option<String> = None;
    let mut i: usize = 0;
    assert(all.take(0) =~= Seq::empty());
    assert(sent_messages(out@) =~= Seq::empty());
    while i < m.content.len()
        invariant
            i <= m.content@.len(),
            all == m@.content,
            all.len() == m.content@.len(),
            sent_messages(out@) == user_parts(all.take(i as int)).out,
            opt_text(text) == user_parts(all.take(i as int)).text,
        decreases m.content@.len() - i,
    {
        assert(all.take(i + 1).drop_last() =~= all.take(i as int));
        assert(all.take(i + 1).last() == m.content@[i as int]@);
        match &m.content[i] {
            Block::Text { text: t } => {
                text = extended(text, t.as_str());
            },
            Block::ToolResult { tool_use_id, content, is_error } => {
                if let Some(t) = text {
                    push_message(&mut out, plain_message("user", t));
                }
                text = None;
                let body = if *is_error {
                    cat2(ERROR_PREFIX, content.as_str())
                } else {
                    content.clone()
                };
                push_message(
                    &mut out,
                    OpenAiMessage {
                        role: "tool".to_owned(),
                        content: Some(body),
                        reasoning_content: None,
                        tool_calls: None,
                        tool_call_id: Some(tool_use_id.clone()),
                    },
                );
            },
            Block::Thinking { .. } => {},
            Block::ToolUse { .. } => {},
        }
        i = i + 1;
    }
    assert(all.take(i as int) =~= all);
    if let Some(t) = text {
        push_message(&mut out, plain_message("user", t));
    }
    out
}

/// The request that a context makes, with what it asks of the model.
pub fn build_request_with(ctx: &RequestContext, model: &str, params: &OpenAiParams) -> (r:
    OpenAiRequest)
    ensures
        r@ == request_for(ctx@, model@, params@),
{
    let ghost all = ctx@.messages;
    let ghost head = sent_system(ctx@.system);
    let mut messages: Vec<OpenAiMessage> = Vec::new();
    assert(sent_messages(messages@) =~= Seq::empty());
    if !ctx.system.as_str().is_empty() {
        push_message(&mut messages, plain_message("system", ctx.system.clone()));
    }
    assert(sent_messages(messages@) =~= head);
    let mut i: usize = 0;
    assert(all.take(0) =~= Seq::empty());
    assert(head + Seq::empty() =~= head);
    while i < ctx.messages.len()
        invariant
            i <= ctx.messages@.len(),
            all == ctx@.messages,
            all.len() == ctx.messages@.len(),
            sent_messages(messages@) == head + all_sent(all.take(i as int)),
        decreases ctx.messages@.len() - i,
    {
        let m = &ctx.messages[i];
        let ghost before = sent_messages(messages@);
        proof {
            assert(all.take(i + 1).drop_last() =~= all.take(i as int));
            assert(all.take(i + 1).last() == m@);
        }
        match m.role {
            Role::User => {
                let mut more = map_user(m);
                let ghost a = messages@;
                let ghost b = more@;
                messages.append(&mut more);
                assert(sent_messages(messages@) =~= sent_messages(a) + sent_messages(b));
            },
            Role::Assistant => {
                if let Some(am) = map_assistant(m) {
                    push_message(&mut messages, am);
                }
            },
        }
        assert(sent_messages(messages@) =~= before + sent_as(m@));
        assert(before + sent_as(m@) =~= head + (all_sent(all.take(i as int)) + sent_as(m@)));
        i = i + 1;
    }
    assert(all.take(i as int) =~= all);
    let ghost want = ctx@.tools.map_values(
        |d: DefinitionView| SentTool { kind: "function"@, function: d },
    );
    let mut tools: Vec<OpenAiTool> = Vec::new();
    let mut k: usize = 0;
    while k < ctx.tools.len()
        invariant
            k <= ctx.tools@.len(),
            want == ctx@.tools.map_values(
                |d: DefinitionView| SentTool { kind: "function"@, function: d },
            ),
            sent_tools(tools@) == want.take(k as int),
        decreases ctx.tools@.len() - k,
    {
        let t = &ctx.tools[k];
        let one = OpenAiTool {
            kind: "function".to_owned(),
            function: OpenAiFunction {
                name: t.name.clone(),
                description: t.description.clone(),
                parameters: t.input_schema.clone(),
            },
        };
        let ghost before = tools@;
        tools.push(one);
        assert(sent_tools(tools@) =~= sent_tools(before).push(one@));
        assert(want.take(k + 1) =~= want.take(k as int).push(want[k as int]));
        k = k + 1;
    }
    assert(want.take(k as int) =~= want);
    OpenAiRequest {
        model: model.to_owned(),
        messages,
        tools,
        stream: true,
        stream_options: StreamOptions { include_usage: true },
        max_tokens: params.max_tokens,
        thinking: copy_text(&params.thinking),
        reasoning_effort: copy_text(&params.reasoning_effort),
        user_id: copy_text(&params.user_id),
    }
}

fn copy_text(s: &Option<String>) -> (r: Option<String>)
    ensures
        opt_text(r) == opt_text(*s),
{
    match s {
        Some(t) => Some(t.clone()),
        None => None,
    }
}

/// What a request asks of the model when it only limits the tokens.
pub open spec fn only_max_tokens(max_tokens: u32) -> ParamsView {
    ParamsView {
        max_tokens: Some(max_tokens),
        thinking: None,
        reasoning_effort: None,
        user_id: None,
    }
}

/// The request that a context makes, with a limit on the tokens of the answer.
pub fn build_request(ctx: &RequestContext, model: &str, max_tokens: u32) -> (r: OpenAiRequest)
    ensures
        r@ == request_for(ctx@, model@, only_max_tokens(max_tokens)),
{
    let params = OpenAiParams {
        max_tokens: Some(max_tokens),
        thinking: None,
        reasoning_effort: None,
        user_id: None,
    };
    build_request_with(ctx, model, &params)
}

/// Longer histories extend what is sent: the messages of a conversation begin with those of any
/// start of it, so that the service finds its cached prefix again.
pub proof fn law_sent_prefix(ms: Seq<MessageView>, more: Seq<MessageView>)
    ensures
        all_sent(ms).is_prefix_of(all_sent(ms + more)),
    decreases more.len(),
{
    if more.len() == 0 {
        assert(ms + more =~= ms);
    } else {
        law_sent_prefix(ms, more.drop_last());
        assert((ms + more).drop_last() =~= ms + more.drop_last());
        let a = all_sent(ms);
        let b = all_sent(ms + more.drop_last());
        let c = all_sent(ms + more);
        assert(a =~= c.subrange(0, a.len() as int)) by {
            assert(a =~= b.subrange(0, a.len() as int));
        }
    }
}

/// The thinking of an assistant message goes back to the service as it came: whole, and together
/// with the calls it led to.
pub proof fn law_thinking_goes_back(bs: Seq<BlockView>)
    requires
        called(bs).len() > 0,
    ensures
        sent_assistant(bs) is Some,
        sent_assistant(bs)->0.reasoning_content == thought(bs),
        sent_assistant(bs)->0.tool_calls == Some(called(bs)),
{
}

/// The calls of a sent assistant message are those that its blocks make, all of them and in order:
/// as many as there are calls among the blocks, each with its id, its name and its arguments as
/// JSON text.
pub proof fn law_every_call_is_sent(bs: Seq<BlockView>)
    ensures
        ({
            let calls = bs.filter(|b: BlockView| b is ToolUse);
            let sent = sent_as(MessageView { role: Role::Assistant, content: bs });
            &&& calls.len() > 0 ==> {
                &&& sent.len() == 1
                &&& sent[0].role == "assistant"@
                &&& sent[0].tool_call_id is None
                &&& sent[0].tool_calls is Some
                &&& sent[0].tool_calls->0.len() == calls.len()
                &&& forall|k: int|
                    0 <= k < calls.len() ==> {
                        let c = #[trigger] sent[0].tool_calls->0[k];
                        &&& c.id == calls[k]->ToolUse_id
                        &&& c.name == calls[k]->name
                        &&& c.arguments == json_text(calls[k]->input)
                        &&& c.kind == "function"@
                    }
            }
            &&& calls.len() == 0 && sent.len() > 0 ==> sent[0].tool_calls is None
        }),
{
    lemma_called(bs);
}

proof fn lemma_called(bs: Seq<BlockView>)
    ensures
        ({
            let calls = bs.filter(|b: BlockView| b is ToolUse);
            &&& called(bs).len() == calls.len()
            &&& forall|k: int|
                0 <= k < calls.len() ==> {
                    let c = #[trigger] called(bs)[k];
                    &&& calls[k] is ToolUse
                    &&& c.id == calls[k]->ToolUse_id
                    &&& c.name == calls[k]->name
                    &&& c.arguments == json_text(calls[k]->input)
                    &&& c.kind == "function"@
                }
        }),
    decreases bs.len(),
{
    reveal(Seq::filter);
    if bs.len() > 0 {
        let front = bs.drop_last();
        lemma_called(front);
        let calls = bs.filter(|b: BlockView| b is ToolUse);
        let before = front.filter(|b: BlockView| b is ToolUse);
        assert forall|k: int| 0 <= k < calls.len() implies {
            let c = #[trigger] called(bs)[k];
            &&& calls[k] is ToolUse
            &&& c.id == calls[k]->ToolUse_id
            &&& c.name == calls[k]->name
            &&& c.arguments == json_text(calls[k]->input)
            &&& c.kind == "function"@
        } by {
            if k < before.len() {
                assert(called(bs)[k] == called(front)[k]);
                assert(calls[k] == before[k]);
            }
        }
    }
}

/// The texts among blocks, in a row.
pub open spec fn texts_in_a_row(bs: Seq<BlockView>) -> Seq<char>
    decreases bs.len(),
{
    if bs.len() == 0 {
        Seq::empty()
    } else {
        (match bs[0] {
            BlockView::Text { text } => text,
            _ => Seq::empty(),
        }) + texts_in_a_row(bs.skip(1))
    }
}

/// The thinking among blocks, in a row.
pub open spec fn thinking_in_a_row(bs: Seq<BlockView>) -> Seq<char>
    decreases bs.len(),
{
    if bs.len() == 0 {
        Seq::empty()
    } else {
        (match bs[0] {
            BlockView::Thinking { reasoning_content } => reasoning_content,
            _ => Seq::empty(),
        }) + thinking_in_a_row(bs.skip(1))
    }
}

proof fn lemma_rows_push(bs: Seq<BlockView>, b: BlockView)
    ensures
        texts_in_a_row(bs.push(b)) == texts_in_a_row(bs) + (match b {
            BlockView::Text { text } => text,
            _ => Seq::empty(),
        }),
        thinking_in_a_row(bs.push(b)) == thinking_in_a_row(bs) + (match b {
            BlockView::Thinking { reasoning_content } => reasoning_content,
            _ => Seq::empty(),
        }),
    decreases bs.len(),
{
    let t = match b {
        BlockView::Text { text } => text,
        _ => Seq::empty(),
    };
    let h = match b {
        BlockView::Thinking { reasoning_content } => reasoning_content,
        _ => Seq::empty(),
    };
    if bs.len() == 0 {
        assert(bs.push(b).skip(1) =~= Seq::empty());
        reveal_with_fuel(texts_in_a_row, 2);
        reveal_with_fuel(thinking_in_a_row, 2);
        assert(t + Seq::<char>::empty() =~= Seq::<char>::empty() + t);
        assert(h + Seq::<char>::empty() =~= Seq::<char>::empty() + h);
    } else {
        lemma_rows_push(bs.skip(1), b);
        assert(bs.push(b).skip(1) =~= bs.skip(1).push(b));
        let a = match bs[0] {
            BlockView::Text { text } => text,
            _ => Seq::empty(),
        };
        let c = match bs[0] {
            BlockView::Thinking { reasoning_content } => reasoning_content,
            _ => Seq::empty(),
        };
        assert(a + (texts_in_a_row(bs.skip(1)) + t) =~= (a + texts_in_a_row(bs.skip(1))) + t);
        assert(c + (thinking_in_a_row(bs.skip(1)) + h) =~= (c + thinking_in_a_row(bs.skip(1))) + h);
    }
}

proof fn lemma_said(bs: Seq<BlockView>)
    ensures
        said(bs) is Some <==> exists|i: int| 0 <= i < bs.len() && #[trigger] bs[i] is Text,
        said(bs) is Some ==> said(bs)->0 == texts_in_a_row(bs),
        said(bs) is None ==> texts_in_a_row(bs) == Seq::<char>::empty(),
        thought(bs) is Some <==> exists|i: int| 0 <= i < bs.len() && #[trigger] bs[i] is Thinking,
        thought(bs) is Some ==> thought(bs)->0 == thinking_in_a_row(bs),
        thought(bs) is None ==> thinking_in_a_row(bs) == Seq::<char>::empty(),
    decreases bs.len(),
{
    if bs.len() > 0 {
        let front = bs.drop_last();
        lemma_said(front);
        lemma_rows_push(front, bs.last());
        assert(front.push(bs.last()) =~= bs);
        assert(bs[bs.len() - 1] == bs.last());
        if said(front) is Some {
            let i = choose|i: int| 0 <= i < front.len() && #[trigger] front[i] is Text;
            assert(bs[i] is Text);
        }
        if thought(front) is Some {
            let i = choose|i: int| 0 <= i < front.len() && #[trigger] front[i] is Thinking;
            assert(bs[i] is Thinking);
        }
        if said(bs) is None {
            assert forall|i: int| 0 <= i < bs.len() implies !(#[trigger] bs[i] is Text) by {
                if i < front.len() {
                    assert(front[i] == bs[i]);
                }
            }
        }
        if thought(bs) is None {
            assert forall|i: int| 0 <= i < bs.len() implies !(#[trigger] bs[i] is Thinking) by {
                if i < front.len() {
                    assert(front[i] == bs[i]);
                }
            }
        }
        assert(texts_in_a_row(front) + Seq::<char>::empty() =~= texts_in_a_row(front));
        assert(thinking_in_a_row(front) + Seq::<char>::empty() =~= thinking_in_a_row(front));
        if said(front) is None && bs.last() is Text {
            assert(Seq::<char>::empty() + bs.last()->text =~= bs.last()->text);
        }
        if thought(front) is None && bs.last() is Thinking {
            assert(Seq::<char>::empty() + bs.last()->reasoning_content
                =~= bs.last()->reasoning_content);
        }
    }
}

/// An assistant message is sent as one message, which says all of its texts in a row and gives all
/// of its thinking in a row; what it has none of is not sent. One that says, thinks and calls
/// nothing is not sent at all.
pub proof fn law_texts_and_thinking_are_sent(bs: Seq<BlockView>)
    ensures
        ({
            let sent = sent_as(MessageView { role: Role::Assistant, content: bs });
            let speaks = exists|i: int| 0 <= i < bs.len() && #[trigger] bs[i] is Text;
            let thinks = exists|i: int| 0 <= i < bs.len() && #[trigger] bs[i] is Thinking;
            let calls = bs.filter(|b: BlockView| b is ToolUse).len() > 0;
            if speaks || thinks || calls {
                &&& sent.len() == 1
                &&& sent[0].role == "assistant"@
                &&& sent[0].content == (if speaks {
                    Some(texts_in_a_row(bs))
                } else {
                    None
                })
                &&& sent[0].reasoning_content == (if thinks {
                    Some(thinking_in_a_row(bs))
                } else {
                    None
                })
            } else {
                sent.len() == 0
            }
        }),
{
    lemma_said(bs);
    lemma_called(bs);
}

/// A user message without results is sent as one message with all of its texts in a row, or not at
/// all where it has none.
pub proof fn law_user_texts_are_sent(bs: Seq<BlockView>)
    requires
        forall|i: int| 0 <= i < bs.len() ==> !(#[trigger] bs[i] is ToolResult),
    ensures
        ({
            let sent = sent_as(MessageView { role: Role::User, content: bs });
            if exists|i: int| 0 <= i < bs.len() && #[trigger] bs[i] is Text {
                &&& sent.len() == 1
                &&& sent[0].role == "user"@
                &&& sent[0].content == Some(texts_in_a_row(bs))
                &&& sent[0].reasoning_content is None
                &&& sent[0].tool_calls is None
                &&& sent[0].tool_call_id is None
            } else {
                sent.len() == 0
            }
        }),
{
    lemma_no_results(bs);
    lemma_said(bs);
}

proof fn lemma_no_results(bs: Seq<BlockView>)
    requires
        forall|i: int| 0 <= i < bs.len() ==> !(#[trigger] bs[i] is ToolResult),
    ensures
        user_parts(bs) == (UserParts { out: Seq::empty(), text: said(bs) }),
    decreases bs.len(),
{
    if bs.len() > 0 {
        assert forall|i: int| 0 <= i < bs.drop_last().len() implies !(
        #[trigger] bs.drop_last()[i] is ToolResult) by {
            assert(bs[i] == bs.drop_last()[i]);
        }
        assert(!(bs[bs.len() - 1] is ToolResult));
        lemma_no_results(bs.drop_last());
    }
}

proof fn lemma_parts_join(a: Seq<BlockView>, r: BlockView, b: Seq<BlockView>)
    requires
        r is ToolResult,
    ensures
        user_parts(a.push(r) + b) == (UserParts {
            out: user_parts(a.push(r)).out + user_parts(b).out,
            text: user_parts(b).text,
        }),
    decreases b.len(),
{
    let x = user_parts(a.push(r));
    if b.len() == 0 {
        assert(a.push(r) + b =~= a.push(r));
        assert(a.push(r).drop_last() =~= a);
        assert(x.out + Seq::<SentMessage>::empty() =~= x.out);
    } else {
        lemma_parts_join(a, r, b.drop_last());
        assert((a.push(r) + b).drop_last() =~= a.push(r) + b.drop_last());
        assert((a.push(r) + b).last() == b.last());
        let y = user_parts(b.drop_last());
        if let BlockView::ToolResult { tool_use_id, content, is_error } = b.last() {
            let one = sent_result(tool_use_id, content, is_error);
            if let Some(t) = y.text {
                assert((x.out + y.out).push(says("user"@, t)).push(one) =~= x.out + y.out.push(
                    says("user"@, t),
                ).push(one));
            } else {
                assert((x.out + y.out).push(one) =~= x.out + y.out.push(one));
            }
        }
    }
}

/// The result of a call is sent as a message of its own, where it stands among the blocks: behind
/// all that the blocks before it are sent as, and before all that those behind it are sent as. It
/// has the id of its call, and says what the call returned, with a mark where the call failed.
pub proof fn law_results_are_sent_in_place(
    before: Seq<BlockView>,
    id: Seq<char>,
    content: Seq<char>,
    failed: bool,
    behind: Seq<BlockView>,
)
    ensures
        ({
            let send = |bs: Seq<BlockView>| sent_as(MessageView { role: Role::User, content: bs });
            let r = BlockView::ToolResult { tool_use_id: id, content, is_error: failed };
            let one = SentMessage {
                role: "tool"@,
                content: Some(
                    if failed {
                        "[工具执行失败] "@ + content
                    } else {
                        content
                    },
                ),
                reasoning_content: None,
                tool_calls: None,
                tool_call_id: Some(id),
            };
            send(before.push(r) + behind) == send(before).push(one) + send(behind)
        }),
{
    let r = BlockView::ToolResult { tool_use_id: id, content, is_error: failed };
    lemma_parts_join(before, r, behind);
    assert(before.push(r).drop_last() =~= before);
    let one = sent_result(id, content, failed);
    let head = user_parts(before).flushed().push(one);
    assert(user_parts(before.push(r)).out == head);
    let y = user_parts(behind);
    if let Some(t) = y.text {
        assert((head + y.out).push(says("user"@, t)) =~= head + y.out.push(says("user"@, t)));
    }
}

/// Every message that tells the result of a call stands for a result among the blocks.
proof fn lemma_sent_results(bs: Seq<BlockView>)
    ensures
        forall|k: int|
            0 <= k < user_parts(bs).flushed().len() && (
            #[trigger] user_parts(bs).flushed()[k]).tool_call_id is Some ==> exists|i: int|
                0 <= i < bs.len() && #[trigger] bs[i] is ToolResult && bs[i]->tool_use_id
                    == user_parts(bs).flushed()[k].tool_call_id->0,
    decreases bs.len(),
{
    if bs.len() > 0 {
        let front = bs.drop_last();
        lemma_sent_results(front);
        let a = user_parts(front).flushed();
        let b = user_parts(bs).flushed();
        assert forall|k: int| 0 <= k < b.len() && (#[trigger] b[k]).tool_call_id is Some implies (
        exists|i: int|
            0 <= i < bs.len() && #[trigger] bs[i] is ToolResult && bs[i]->tool_use_id
                == b[k].tool_call_id->0) by {
            if k < a.len() && b[k] == a[k] {
                let i = choose|i: int|
                    0 <= i < front.len() && #[trigger] front[i] is ToolResult
                        && front[i]->tool_use_id == a[k].tool_call_id->0;
                assert(bs[i] is ToolResult);
            } else {
                assert(bs[bs.len() - 1] is ToolResult);
            }
        }
    }
}

/// Where each result of a user message answers a call of the assistant message before it, each sent
/// result answers a sent call: the message with the calls is sent, and it has a call with that id.
pub proof fn law_sent_results_have_their_calls(
    calls: Seq<BlockView>,
    results: Seq<BlockView>,
    k: int,
)
    requires
        forall|i: int|
            0 <= i < results.len() && #[trigger] results[i] is ToolResult ==> exists|j: int|
                0 <= j < calls.len() && #[trigger] calls[j] is ToolUse && calls[j]->ToolUse_id
                    == results[i]->tool_use_id,
        0 <= k < sent_as(MessageView { role: Role::User, content: results }).len(),
        sent_as(MessageView { role: Role::User, content: results })[k].tool_call_id is Some,
    ensures
        ({
            let asked = sent_as(MessageView { role: Role::Assistant, content: calls });
            let told = sent_as(MessageView { role: Role::User, content: results })[k];
            &&& asked.len() == 1
            &&& asked[0].tool_calls is Some
            &&& exists|n: int|
                0 <= n < asked[0].tool_calls->0.len() && (
                #[trigger] asked[0].tool_calls->0[n]).id == told.tool_call_id->0
        }),
{
    lemma_sent_results(results);
    let told = user_parts(results).flushed()[k];
    let i = choose|i: int|
        0 <= i < results.len() && #[trigger] results[i] is ToolResult && results[i]->tool_use_id
            == told.tool_call_id->0;
    let j = choose|j: int|
        0 <= j < calls.len() && #[trigger] calls[j] is ToolUse && calls[j]->ToolUse_id
            == results[i]->tool_use_id;
    lemma_called(calls);
    let made = calls.filter(|b: BlockView| b is ToolUse);
    calls.lemma_filter_contains(|b: BlockView| b is ToolUse, j);
    let n = choose|n: int| 0 <= n < made.len() && made[n] == calls[j];
    assert(called(calls)[n].id == told.tool_call_id->0);
    let asked = sent_as(MessageView { role: Role::Assistant, content: calls });
    assert(asked[0].tool_calls == Some(called(calls)));
    assert(asked[0].tool_calls->0[n].id == told.tool_call_id->0);
}

/// A conversation is sent message by message: what is sent for two parts of it, one behind the
/// other, is what is sent for each. The system prompt comes first, where there is one, and each
/// tool is sent with its own name, description and schema, in order.
pub proof fn law_request_holds_the_context(
    ctx: RequestView,
    model: Seq<char>,
    params: ParamsView,
    n: int,
)
    requires
        0 <= n < ctx.messages.len(),
    ensures
        ({
            let r = request_for(ctx, model, params);
            let whole = all_sent(ctx.messages);
            &&& r.model == model
            &&& r.params == params
            &&& r.stream
            &&& r.stream_options.include_usage
            &&& ctx.system.len() == 0 ==> r.messages == whole
            &&& ctx.system.len() > 0 ==> {
                &&& r.messages.len() == 1 + whole.len()
                &&& r.messages[0].role == "system"@
                &&& r.messages[0].content == Some(ctx.system)
                &&& r.messages[0].tool_calls is None
                &&& r.messages.skip(1) == whole
            }
            &&& whole == all_sent(ctx.messages.take(n)) + sent_as(ctx.messages[n]) + all_sent(
                ctx.messages.skip(n + 1),
            )
            &&& r.tools.len() == ctx.tools.len()
            &&& forall|k: int|
                0 <= k < ctx.tools.len() ==> {
                    let t = #[trigger] r.tools[k];
                    &&& t.kind == "function"@
                    &&& t.function == ctx.tools[k]
                }
        }),
{
    let r = request_for(ctx, model, params);
    lemma_sent_at(ctx.messages, n);
    if ctx.system.len() > 0 {
        assert(r.messages.skip(1) =~= all_sent(ctx.messages));
    } else {
        assert(r.messages =~= all_sent(ctx.messages));
    }
}

proof fn lemma_sent_at(ms: Seq<MessageView>, n: int)
    requires
        0 <= n < ms.len(),
    ensures
        all_sent(ms) == all_sent(ms.take(n)) + sent_as(ms[n]) + all_sent(ms.skip(n + 1)),
    decreases ms.len(),
{
    if n == ms.len() - 1 {
        assert(ms.drop_last() =~= ms.take(n));
        assert(ms.skip(n + 1) =~= Seq::empty());
        assert(all_sent(ms) =~= all_sent(ms.take(n)) + sent_as(ms[n]) + all_sent(ms.skip(n + 1)));
    } else {
        let front = ms.drop_last();
        lemma_sent_at(front, n);
        assert(front.take(n) =~= ms.take(n));
        assert(front.skip(n + 1) =~= ms.skip(n + 1).drop_last());
        assert(ms.skip(n + 1).last() == ms.last());
        let a = all_sent(ms.take(n)) + sent_as(ms[n]);
        assert(a + all_sent(front.skip(n + 1)) + sent_as(ms.last()) =~= a + (all_sent(
            front.skip(n + 1),
        ) + sent_as(ms.last())));
    }
}

// ---- wire form ----

/// A member that is sent only where it is set.
pub open spec fn with_text(t: JsonTree, k: Seq<char>, v: Option<Seq<char>>) -> JsonTree {
    match v {
        Some(s) => with_member(t, k, JsonTree::Text(s)),
        None => t,
    }
}

/// A call on the wire.
pub open spec fn wire_call(c: SentCall) -> JsonTree {
    JsonTree::Object(
        seq![
            ("id"@, JsonTree::Text(c.id)),
            ("type"@, JsonTree::Text(c.kind)),
            (
                "function"@,
                JsonTree::Object(
                    seq![
                        ("name"@, JsonTree::Text(c.name)),
                        ("arguments"@, JsonTree::Text(c.arguments)),
                    ],
                ),
            ),
        ],
    )
}

/// A message on the wire.
pub open spec fn wire_message(m: SentMessage) -> JsonTree {
    let t = JsonTree::Object(seq![("role"@, JsonTree::Text(m.role))]);
    let t = with_text(t, "content"@, m.content);
    let t = with_text(t, "reasoning_content"@, m.reasoning_content);
    let t = match m.tool_calls {
        Some(cs) => with_member(
            t,
            "tool_calls"@,
            JsonTree::Array(cs.map_values(|c: SentCall| wire_call(c))),
        ),
        None => t,
    };
    with_text(t, "tool_call_id"@, m.tool_call_id)
}

/// A tool on the wire.
pub open spec fn wire_tool(t: SentTool) -> JsonTree {
    JsonTree::Object(
        seq![
            ("type"@, JsonTree::Text(t.kind)),
            (
                "function"@,
                JsonTree::Object(
                    seq![
                        ("name"@, JsonTree::Text(t.function.name)),
                        ("description"@, JsonTree::Text(t.function.description)),
                        ("parameters"@, t.function.input_schema),
                    ],
                ),
            ),
        ],
    )
}

/// A request on the wire: its fields in their order.
pub open spec fn wire_request(r: SentRequest) -> JsonTree {
    let t = JsonTree::Object(
        seq![
            ("model"@, JsonTree::Text(r.model)),
            ("messages"@, JsonTree::Array(r.messages.map_values(|m: SentMessage| wire_message(m)))),
            ("tools"@, JsonTree::Array(r.tools.map_values(|t: SentTool| wire_tool(t)))),
            ("stream"@, JsonTree::Bool(r.stream)),
            (
                "stream_options"@,
                JsonTree::Object(
                    seq![("include_usage"@, JsonTree::Bool(r.stream_options.include_usage))],
                ),
            ),
        ],
    );
    let t = match r.params.max_tokens {
        Some(n) => with_member(t, "max_tokens"@, JsonTree::Unsigned(n as u64)),
        None => t,
    };
    let t = match r.params.thinking {
        Some(s) => with_member(
            t,
            "thinking"@,
            JsonTree::Object(seq![("type"@, JsonTree::Text(s))]),
        ),
        None => t,
    };
    let t = with_text(t, "reasoning_effort"@, r.params.reasoning_effort);
    with_text(t, "user_id"@, r.params.user_id)
}

fn add_text(j: Json, k: &str, v: &Option<String>) -> (r: Json)
    ensures
        r.tree() == with_text(j.tree(), k@, opt_text(*v)),
{
    match v {
        Some(s) => add_member(j, k, text_json(s.as_str())),
        None => j,
    }
}

impl OpenAiToolCall {
    /// The call on the wire.
    pub fn to_json(&self) -> (r: Json)
        ensures
            r.tree() == wire_call(self@),
    {
        let f = object1("name", text_json(self.function.name.as_str()));
        let f = add_member(f, "arguments", text_json(self.function.arguments.as_str()));
        let r = object1("id", text_json(self.id.as_str()));
        let r = add_member(r, "type", text_json(self.kind.as_str()));
        let r = add_member(r, "function", f);
        assert(f.tree()->Object_0 =~= seq![
            ("name"@, JsonTree::Text(self@.name)),
            ("arguments"@, JsonTree::Text(self@.arguments)),
        ]);
        assert(r.tree()->Object_0 =~= wire_call(self@)->Object_0);
        r
    }
}

impl OpenAiMessage {
    /// The message on the wire.
    pub fn to_json(&self) -> (r: Json)
        ensures
            r.tree() == wire_message(self@),
    {
        let r = object1("role", text_json(self.role.as_str()));
        let r = add_text(r, "content", &self.content);
        let r = add_text(r, "reasoning_content", &self.reasoning_content);
        let r = match &self.tool_calls {
            Some(cs) => {
                let ghost want = sent_calls(cs@).map_values(|c: SentCall| wire_call(c));
                let mut calls: Vec<Json> = Vec::new();
                let mut i: usize = 0;
                while i < cs.len()
                    invariant
                        i <= cs@.len(),
                        want == sent_calls(cs@).map_values(|c: SentCall| wire_call(c)),
                        trees(calls@) == want.take(i as int),
                    decreases cs@.len() - i,
                {
                    let one = cs[i].to_json();
                    let ghost before = calls@;
                    calls.push(one);
                    assert(trees(calls@) =~= trees(before).push(one.tree()));
                    assert(want.take(i + 1) =~= want.take(i as int).push(want[i as int]));
                    i = i + 1;
                }
                let calls = Json::Array(calls);
                proof {
                    assert(want.take(i as int) =~= want);
                    lemma_array(calls);
                }
                add_member(r, "tool_calls", calls)
            },
            None => r,
        };
        add_text(r, "tool_call_id", &self.tool_call_id)
    }
}

impl OpenAiTool {
    /// The tool on the wire.
    pub fn to_json(&self) -> (r: Json)
        ensures
            r.tree() == wire_tool(self@),
    {
        let f = object1("name", text_json(self.function.name.as_str()));
        let f = add_member(f, "description", text_json(self.function.description.as_str()));
        let f = add_member(f, "parameters", self.function.parameters.clone());
        let r = object1("type", text_json(self.kind.as_str()));
        let r = add_member(r, "function", f);
        assert(f.tree()->Object_0 =~= seq![
            ("name"@, JsonTree::Text(self@.function.name)),
            ("description"@, JsonTree::Text(self@.function.description)),
            ("parameters"@, self@.function.input_schema),
        ]);
        assert(r.tree()->Object_0 =~= wire_tool(self@)->Object_0);
        r
    }
}

impl OpenAiRequest {
    /// The request on the wire.
    pub fn to_json(&self) -> (r: Json)
        ensures
            r.tree() == wire_request(self@),
    {
        let ghost want_tools = self@.tools.map_values(|t: SentTool| wire_tool(t));
        let mut tools: Vec<Json> = Vec::new();
        let mut i: usize = 0;
        while i < self.tools.len()
            invariant
                i <= self.tools@.len(),
                want_tools == self@.tools.map_values(|t: SentTool| wire_tool(t)),
                trees(tools@) == want_tools.take(i as int),
            decreases self.tools@.len() - i,
        {
            let one = self.tools[i].to_json();
            let ghost before = tools@;
            tools.push(one);
            assert(trees(tools@) =~= trees(before).push(one.tree()));
            assert(want_tools.take(i + 1) =~= want_tools.take(i as int).push(want_tools[i as int]));
            i = i + 1;
        }
        let ghost want = self@.messages.map_values(|m: SentMessage| wire_message(m));
        let mut messages: Vec<Json> = Vec::new();
        let mut k: usize = 0;
        while k < self.messages.len()
            invariant
                k <= self.messages@.len(),
                want == self@.messages.map_values(|m: SentMessage| wire_message(m)),
                trees(messages@) == want.take(k as int),
            decreases self.messages@.len() - k,
        {
            let one = self.messages[k].to_json();
            let ghost before = messages@;
            messages.push(one);
            assert(trees(messages@) =~= trees(before).push(one.tree()));
            assert(want.take(k + 1) =~= want.take(k as int).push(want[k as int]));
            k = k + 1;
        }
        let tools = Json::Array(tools);
        let messages = Json::Array(messages);
        proof {
            assert(want_tools.take(i as int) =~= want_tools);
            assert(want.take(k as int) =~= want);
            lemma_array(tools);
            lemma_array(messages);
        }
        let r = object1("model", text_json(self.model.as_str()));
        let r = add_member(r, "messages", messages);
        let r = add_member(r, "tools", tools);
        let r = add_member(r, "stream", Json::Bool(self.stream));
        let r = add_member(
            r,
            "stream_options",
            object1("include_usage", Json::Bool(self.stream_options.include_usage)),
        );
        proof {
            let t = JsonTree::Object(
                seq![
                    ("model"@, JsonTree::Text(self@.model)),
                    ("messages"@, JsonTree::Array(want)),
                    ("tools"@, JsonTree::Array(want_tools)),
                    ("stream"@, JsonTree::Bool(self@.stream)),
                    (
                        "stream_options"@,
                        JsonTree::Object(
                            seq![
                                (
                                    "include_usage"@,
                                    JsonTree::Bool(self@.stream_options.include_usage),
                                ),
                            ],
                        ),
                    ),
                ],
            );
            assert(r.tree()->Object_0 =~= t->Object_0);
        }
        let r = match self.max_tokens {
            Some(n) => add_member(r, "max_tokens", Json::Number(JsonNumber::Unsigned(n as u64))),
            None => r,
        };
        let r = match &self.thinking {
            Some(s) => add_member(r, "thinking", object1("type", text_json(s.as_str()))),
            None => r,
        };
        let r = add_text(r, "reasoning_effort", &self.reasoning_effort);
        add_text(r, "user_id", &self.user_id)
    }
}

// ---- what the service reads ----

proof fn lemma_message_keys()
    ensures
        "role"@ != "content"@,
        "role"@ != "reasoning_content"@,
        "role"@ != "tool_calls"@,
        "role"@ != "tool_call_id"@,
        "content"@ != "reasoning_content"@,
        "content"@ != "tool_calls"@,
        "content"@ != "tool_call_id"@,
        "reasoning_content"@ != "tool_calls"@,
        "reasoning_content"@ != "tool_call_id"@,
        "tool_calls"@ != "tool_call_id"@,
        "id"@ != "type"@,
        "id"@ != "function"@,
        "type"@ != "function"@,
        "name"@ != "arguments"@,
        "name"@ != "description"@,
        "name"@ != "parameters"@,
        "description"@ != "parameters"@,
{
    reveal_strlit("role");
    reveal_strlit("content");
    reveal_strlit("reasoning_content");
    reveal_strlit("tool_calls");
    reveal_strlit("tool_call_id");
    reveal_strlit("id");
    reveal_strlit("type");
    reveal_strlit("function");
    reveal_strlit("name");
    reveal_strlit("arguments");
    reveal_strlit("description");
    reveal_strlit("parameters");
    assert("role"@.len() == 4 && "content"@.len() == 7 && "reasoning_content"@.len() == 17);
    assert("tool_calls"@.len() == 10 && "tool_call_id"@.len() == 12);
    assert("id"@.len() == 2 && "type"@.len() == 4 && "function"@.len() == 8);
    assert("name"@.len() == 4 && "arguments"@.len() == 9 && "description"@.len() == 11);
    assert("parameters"@.len() == 10);
}

/// What the service reads of a call: its id, that it is of a function, the name and the arguments.
pub proof fn law_call_on_the_wire(c: SentCall)
    ensures
        ({
            let t = wire_call(c);
            let f = t.get("function"@);
            &&& t.text_of("id"@) == Some(c.id)
            &&& t.text_of("type"@) == Some(c.kind)
            &&& f is Some
            &&& f->0.text_of("name"@) == Some(c.name)
            &&& f->0.text_of("arguments"@) == Some(c.arguments)
        }),
{
    lemma_message_keys();
    let t = wire_call(c);
    lemma_get(t, 0);
    lemma_get(t, 1);
    lemma_get(t, 2);
    let f = t->Object_0[2].1;
    lemma_get(f, 0);
    lemma_get(f, 1);
}

proof fn lemma_get_text(t: JsonTree, k: Seq<char>, v: Option<Seq<char>>, key: Seq<char>)
    requires
        t is Object,
    ensures
        with_text(t, k, v) is Object,
        with_text(t, k, v).get(key) == (if t.get(key) is None && key == k && v is Some {
            Some(JsonTree::Text(v->0))
        } else {
            t.get(key)
        }),
{
    if let Some(s) = v {
        lemma_get_with(t, k, JsonTree::Text(s), key);
    }
}

proof fn lemma_wire_message(m: SentMessage, key: Seq<char>)
    ensures
        wire_message(m).get(key) == (if key == "role"@ {
            Some(JsonTree::Text(m.role))
        } else if key == "content"@ && m.content is Some {
            Some(JsonTree::Text(m.content->0))
        } else if key == "reasoning_content"@ && m.reasoning_content is Some {
            Some(JsonTree::Text(m.reasoning_content->0))
        } else if key == "tool_calls"@ && m.tool_calls is Some {
            Some(JsonTree::Array(m.tool_calls->0.map_values(|c: SentCall| wire_call(c))))
        } else if key == "tool_call_id"@ && m.tool_call_id is Some {
            Some(JsonTree::Text(m.tool_call_id->0))
        } else {
            None
        }),
{
    lemma_message_keys();
    let a = JsonTree::Object(seq![("role"@, JsonTree::Text(m.role))]);
    lemma_get_one("role"@, JsonTree::Text(m.role), key);
    let b = with_text(a, "content"@, m.content);
    lemma_get_text(a, "content"@, m.content, key);
    let c = with_text(b, "reasoning_content"@, m.reasoning_content);
    lemma_get_text(b, "reasoning_content"@, m.reasoning_content, key);
    let d = match m.tool_calls {
        Some(cs) => with_member(
            c,
            "tool_calls"@,
            JsonTree::Array(cs.map_values(|c: SentCall| wire_call(c))),
        ),
        None => c,
    };
    if let Some(cs) = m.tool_calls {
        lemma_get_with(
            c,
            "tool_calls"@,
            JsonTree::Array(cs.map_values(|c: SentCall| wire_call(c))),
            key,
        );
    }
    lemma_get_text(d, "tool_call_id"@, m.tool_call_id, key);
}

/// What the service reads of a message: its role, and what it says, thinks, calls and answers, each
/// under its own name and only where it has it; and its calls all and in order.
pub proof fn law_message_on_the_wire(m: SentMessage)
    ensures
        ({
            let t = wire_message(m);
            &&& t.text_of("role"@) == Some(m.role)
            &&& t.text_of("content"@) == m.content
            &&& t.get("content"@) is Some <==> m.content is Some
            &&& t.text_of("reasoning_content"@) == m.reasoning_content
            &&& t.get("reasoning_content"@) is Some <==> m.reasoning_content is Some
            &&& t.text_of("tool_call_id"@) == m.tool_call_id
            &&& t.get("tool_call_id"@) is Some <==> m.tool_call_id is Some
            &&& m.tool_calls is None ==> t.get("tool_calls"@) is None
            &&& m.tool_calls matches Some(cs) ==> {
                &&& t.get("tool_calls"@) matches Some(JsonTree::Array(items)) && {
                    &&& items.len() == cs.len()
                    &&& forall|k: int|
                        0 <= k < cs.len() ==> {
                            let c = #[trigger] items[k];
                            &&& c.text_of("id"@) == Some(cs[k].id)
                            &&& c.get("function"@) is Some
                            &&& c.get("function"@)->0.text_of("name"@) == Some(cs[k].name)
                            &&& c.get("function"@)->0.text_of("arguments"@) == Some(cs[k].arguments)
                        }
                }
            }
        }),
{
    lemma_message_keys();
    lemma_wire_message(m, "role"@);
    lemma_wire_message(m, "content"@);
    lemma_wire_message(m, "reasoning_content"@);
    lemma_wire_message(m, "tool_calls"@);
    lemma_wire_message(m, "tool_call_id"@);
    if let Some(cs) = m.tool_calls {
        let items = cs.map_values(|c: SentCall| wire_call(c));
        assert forall|k: int| 0 <= k < cs.len() implies {
            let c = #[trigger] items[k];
            &&& c.text_of("id"@) == Some(cs[k].id)
            &&& c.get("function"@) is Some
            &&& c.get("function"@)->0.text_of("name"@) == Some(cs[k].name)
            &&& c.get("function"@)->0.text_of("arguments"@) == Some(cs[k].arguments)
        } by {
            law_call_on_the_wire(cs[k]);
        }
    }
}

/// What the service reads of a tool: its name, what it does, and the schema of its input.
pub proof fn law_tool_on_the_wire(s: SentTool)
    ensures
        ({
            let t = wire_tool(s);
            let f = t.get("function"@);
            &&& t.text_of("type"@) == Some(s.kind)
            &&& f is Some
            &&& f->0.text_of("name"@) == Some(s.function.name)
            &&& f->0.text_of("description"@) == Some(s.function.description)
            &&& f->0.get("parameters"@) == Some(s.function.input_schema)
        }),
{
    lemma_message_keys();
    let t = wire_tool(s);
    lemma_get(t, 0);
    lemma_get(t, 1);
    let f = t->Object_0[1].1;
    lemma_get(f, 0);
    lemma_get(f, 1);
    lemma_get(f, 2);
}

proof fn lemma_request_keys()
    ensures
        "model"@ != "messages"@,
        "model"@ != "tools"@,
        "model"@ != "stream"@,
        "model"@ != "stream_options"@,
        "messages"@ != "tools"@,
        "messages"@ != "stream"@,
        "messages"@ != "stream_options"@,
        "tools"@ != "stream"@,
        "tools"@ != "stream_options"@,
        "stream"@ != "stream_options"@,
        "model"@.len() == 5,
        "messages"@.len() == 8,
        "messages"@[0] == 'm',
        "tools"@.len() == 5,
        "stream"@.len() == 6,
        "stream_options"@.len() == 14,
        "max_tokens"@.len() == 10,
        "thinking"@.len() == 8,
        "thinking"@[0] == 't',
        "reasoning_effort"@.len() == 16,
        "user_id"@.len() == 7,
{
    reveal_strlit("model");
    reveal_strlit("messages");
    reveal_strlit("tools");
    reveal_strlit("stream");
    reveal_strlit("stream_options");
    reveal_strlit("max_tokens");
    reveal_strlit("thinking");
    reveal_strlit("reasoning_effort");
    reveal_strlit("user_id");
    assert("model"@.len() == 5 && "messages"@.len() == 8 && "tools"@.len() == 5);
    assert("stream"@.len() == 6 && "stream_options"@.len() == 14);
    assert("max_tokens"@.len() == 10 && "thinking"@.len() == 8);
    assert("reasoning_effort"@.len() == 16 && "user_id"@.len() == 7);
    assert("thinking"@[0] == 't' && "messages"@[0] == 'm');
    assert("model"@[0] == 'm' && "tools"@[0] == 't');
}

proof fn lemma_wire_request(r: SentRequest, key: Seq<char>)
    requires
        key == "model"@ || key == "messages"@ || key == "tools"@ || key == "stream"@ || key
            == "stream_options"@ || key == "max_tokens"@ || key == "thinking"@ || key
            == "reasoning_effort"@ || key == "user_id"@,
    ensures
        wire_request(r).get(key) == (if key == "model"@ {
            Some(JsonTree::Text(r.model))
        } else if key == "messages"@ {
            Some(JsonTree::Array(r.messages.map_values(|m: SentMessage| wire_message(m))))
        } else if key == "tools"@ {
            Some(JsonTree::Array(r.tools.map_values(|t: SentTool| wire_tool(t))))
        } else if key == "stream"@ {
            Some(JsonTree::Bool(r.stream))
        } else if key == "stream_options"@ {
            Some(
                JsonTree::Object(
                    seq![("include_usage"@, JsonTree::Bool(r.stream_options.include_usage))],
                ),
            )
        } else if key == "max_tokens"@ && r.params.max_tokens is Some {
            Some(JsonTree::Unsigned(r.params.max_tokens->0 as u64))
        } else if key == "thinking"@ && r.params.thinking is Some {
            Some(JsonTree::Object(seq![("type"@, JsonTree::Text(r.params.thinking->0))]))
        } else if key == "reasoning_effort"@ && r.params.reasoning_effort is Some {
            Some(JsonTree::Text(r.params.reasoning_effort->0))
        } else if key == "user_id"@ && r.params.user_id is Some {
            Some(JsonTree::Text(r.params.user_id->0))
        } else {
            None
        }),
{
    lemma_request_keys();
    let a = JsonTree::Object(
        seq![
            ("model"@, JsonTree::Text(r.model)),
            ("messages"@, JsonTree::Array(r.messages.map_values(|m: SentMessage| wire_message(m)))),
            ("tools"@, JsonTree::Array(r.tools.map_values(|t: SentTool| wire_tool(t)))),
            ("stream"@, JsonTree::Bool(r.stream)),
            (
                "stream_options"@,
                JsonTree::Object(
                    seq![("include_usage"@, JsonTree::Bool(r.stream_options.include_usage))],
                ),
            ),
        ],
    );
    lemma_get(a, 0);
    lemma_get(a, 1);
    lemma_get(a, 2);
    lemma_get(a, 3);
    lemma_get(a, 4);
    law_member_is_the_first_of_its_name(a, key);
    let b = match r.params.max_tokens {
        Some(n) => with_member(a, "max_tokens"@, JsonTree::Unsigned(n as u64)),
        None => a,
    };
    if let Some(n) = r.params.max_tokens {
        lemma_get_with(a, "max_tokens"@, JsonTree::Unsigned(n as u64), key);
    }
    let c = match r.params.thinking {
        Some(s) => with_member(
            b,
            "thinking"@,
            JsonTree::Object(seq![("type"@, JsonTree::Text(s))]),
        ),
        None => b,
    };
    if let Some(s) = r.params.thinking {
        lemma_get_with(
            b,
            "thinking"@,
            JsonTree::Object(seq![("type"@, JsonTree::Text(s))]),
            key,
        );
    }
    let d = with_text(c, "reasoning_effort"@, r.params.reasoning_effort);
    lemma_get_text(c, "reasoning_effort"@, r.params.reasoning_effort, key);
    lemma_get_text(d, "user_id"@, r.params.user_id, key);
}

/// What the service reads of a request: the model, every message and every tool in order, that the
/// answer is to come as a stream that tells what it used, and what was set of the rest, each under
/// its own name; what was not set is not there.
pub proof fn law_request_on_the_wire(r: SentRequest, k: int)
    ensures
        ({
            let t = wire_request(r);
            &&& t.text_of("model"@) == Some(r.model)
            &&& t.get("stream"@) == Some(JsonTree::Bool(r.stream))
            &&& t.get("stream_options"@) is Some
            &&& t.get("stream_options"@)->0.get("include_usage"@) == Some(
                JsonTree::Bool(r.stream_options.include_usage),
            )
            &&& t.get("messages"@) matches Some(JsonTree::Array(ms)) && {
                &&& ms.len() == r.messages.len()
                &&& 0 <= k < ms.len() ==> ms[k] == wire_message(r.messages[k])
            }
            &&& t.get("tools"@) matches Some(JsonTree::Array(ts)) && {
                &&& ts.len() == r.tools.len()
                &&& 0 <= k < ts.len() ==> ts[k] == wire_tool(r.tools[k])
            }
            &&& r.params.max_tokens is None ==> t.get("max_tokens"@) is None
            &&& r.params.max_tokens matches Some(n) ==> t.unsigned_of("max_tokens"@) == Some(n as u64)
            &&& r.params.thinking is None ==> t.get("thinking"@) is None
            &&& r.params.thinking matches Some(s) ==> t.get("thinking"@) is Some && t.get(
                "thinking"@,
            )->0.text_of("type"@) == Some(s)
            &&& t.text_of("reasoning_effort"@) == r.params.reasoning_effort
            &&& t.get("reasoning_effort"@) is Some <==> r.params.reasoning_effort is Some
            &&& t.text_of("user_id"@) == r.params.user_id
            &&& t.get("user_id"@) is Some <==> r.params.user_id is Some
        }),
{
    lemma_request_keys();
    lemma_wire_request(r, "model"@);
    lemma_wire_request(r, "messages"@);
    lemma_wire_request(r, "tools"@);
    lemma_wire_request(r, "stream"@);
    lemma_wire_request(r, "stream_options"@);
    lemma_wire_request(r, "max_tokens"@);
    lemma_wire_request(r, "thinking"@);
    lemma_wire_request(r, "reasoning_effort"@);
    lemma_wire_request(r, "user_id"@);
    lemma_get_one(
        "include_usage"@,
        JsonTree::Bool(r.stream_options.include_usage),
        "include_usage"@,
    );
    if let Some(s) = r.params.thinking {
        lemma_get_one("type"@, JsonTree::Text(s), "type"@);
    }
}

} // verus!
