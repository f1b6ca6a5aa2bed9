//! Requests in Anthropic's wire format.
use vstd::prelude::*;
use vstd::string::*;
use crate::json::{
    add_member, law_member_is_the_first_of_its_name, lemma_array, lemma_get, object1, text_json, trees,
    with_member, Json, JsonNumber, JsonTree,
};
use crate::message::{
    role_name, role_text, stored_block, Block, BlockView, Message, MessageView, Role,
};
use crate::provider::{RequestContext, RequestView};
use crate::tools::{stored_definition, DefinitionView, ToolDefinition};

verus! {

/// A request. Its fields are sent in this order.
#[derive(Debug)]
pub struct AnthropicRequest {
    pub model: String,
    pub max_tokens: u32,
    pub system: String,
    pub tools: Vec<AnthropicTool>,
    pub messages: Vec<AnthropicMessage>,
    pub stream: bool,
}

/// A tool as the service is told of it.
#[derive(Debug)]
pub struct AnthropicTool {
    pub name: String,
    pub description: String,
    pub input_schema: Json,
}

/// A message as it is sent.
#[derive(Debug)]
pub struct AnthropicMessage {
    pub role: String,
    pub content: Vec<AnthropicBlock>,
}

/// A block as it is sent.
#[derive(Debug)]
pub enum AnthropicBlock {
    Text { text: String },
    ToolUse { id: String, name: String, input: Json },
    ToolResult { tool_use_id: String, content: String, is_error: bool },
}

impl View for AnthropicBlock {
    type V = BlockView;

    open spec fn view(&self) -> BlockView {
        match self {
            AnthropicBlock::Text { text } => BlockView::Text { text: text@ },
            AnthropicBlock::ToolUse { id, name, input } => BlockView::ToolUse {
                id: id@,
                name: name@,
                input: input.tree(),
            },
            AnthropicBlock::ToolResult { tool_use_id, content, is_error } => BlockView::ToolResult {
                tool_use_id: tool_use_id@,
                content: content@,
                is_error: *is_error,
            },
        }
    }
}

impl View for AnthropicTool {
    type V = DefinitionView;

    open spec fn view(&self) -> DefinitionView {
        DefinitionView {
            name: self.name@,
            description: self.description@,
            input_schema: self.input_schema.tree(),
        }
    }
}

/// What a sent message holds.
#[verifier::ext_equal]
pub struct SentMessage {
    pub role: Seq<char>,
    pub content: Seq<BlockView>,
}

/// The views of a list of sent blocks.
pub open spec fn sent_blocks(v: Seq<AnthropicBlock>) -> Seq<BlockView> {
    Seq::new(v.len(), |i: int| v[i]@)
}

impl View for AnthropicMessage {
    type V = SentMessage;

    open spec fn view(&self) -> SentMessage {
        SentMessage { role: self.role@, content: sent_blocks(self.content@) }
    }
}

/// What a request holds.
#[verifier::ext_equal]
pub struct SentRequest {
    pub model: Seq<char>,
    pub max_tokens: u32,
    pub system: Seq<char>,
    pub tools: Seq<DefinitionView>,
    pub messages: Seq<SentMessage>,
    pub stream: bool,
}

/// The views of a list of sent tools.
pub open spec fn sent_tools(v: Seq<AnthropicTool>) -> Seq<DefinitionView> {
    Seq::new(v.len(), |i: int| v[i]@)
}

/// The views of a list of sent messages.
pub open spec fn sent_messages(v: Seq<AnthropicMessage>) -> Seq<SentMessage> {
    Seq::new(v.len(), |i: int| v[i]@)
}

impl View for AnthropicRequest {
    type V = SentRequest;

    open spec fn view(&self) -> SentRequest {
        SentRequest {
            model: self.model@,
            max_tokens: self.max_tokens,
            system: self.system@,
            tools: sent_tools(self.tools@),
            messages: sent_messages(self.messages@),
            stream: self.stream,
        }
    }
}

/// The blocks that are sent: all but thinking.
pub open spec fn without_thinking(bs: Seq<BlockView>) -> Seq<BlockView>
    decreases bs.len(),
{
    if bs.len() == 0 {
        Seq::empty()
    } else if bs.last() is Thinking {
        without_thinking(bs.drop_last())
    } else {
        without_thinking(bs.drop_last()).push(bs.last())
    }
}

/// A message as it is sent.
pub open spec fn sent_message(m: MessageView) -> SentMessage {
    SentMessage { role: role_name(m.role), content: without_thinking(m.content) }
}

/// The messages that are sent: each without its thinking, where anything is left of it.
pub open spec fn messages_sent(ms: Seq<MessageView>) -> Seq<SentMessage>
    decreases ms.len(),
{
    if ms.len() == 0 {
        Seq::empty()
    } else if without_thinking(ms.last().content).len() == 0 {
        messages_sent(ms.drop_last())
    } else {
        messages_sent(ms.drop_last()).push(sent_message(ms.last()))
    }
}

/// The request that a context makes.
pub open spec fn request_for(ctx: RequestView, model: Seq<char>, max_tokens: u32) -> SentRequest {
    SentRequest {
        model,
        max_tokens,
        system: ctx.system,
        tools: ctx.tools,
        messages: messages_sent(ctx.messages),
        stream: true,
    }
}

/// A block as it is sent; thinking is not.
pub fn map_block(b: &Block) -> (r: Option<AnthropicBlock>)
    ensures
        match r {
            Some(s) => !(b@ is Thinking) && s@ == b@,
            None => b@ is Thinking,
        },
{
    match b {
        Block::Text { text } => Some(AnthropicBlock::Text { text: text.clone() }),
        Block::ToolUse { id, name, input } => Some(
            AnthropicBlock::ToolUse { id: id.clone(), name: name.clone(), input: input.clone() },
        ),
        Block::ToolResult { tool_use_id, content, is_error } => Some(
            AnthropicBlock::ToolResult {
                tool_use_id: tool_use_id.clone(),
                content: content.clone(),
                is_error: *is_error,
            },
        ),
        Block::Thinking { .. } => None,
    }
}

/// A message as it is sent, where anything is left of it.
pub fn map_message(m: &Message) -> (r: Option<AnthropicMessage>)
    ensures
        match r {
            Some(s) => without_thinking(m@.content).len() > 0 && s@ == sent_message(m@),
            None => without_thinking(m@.content).len() == 0,
        },
{
    let ghost all = m@.content;
    let mut content: Vec<AnthropicBlock> = Vec::new();
    let mut i: usize = 0;
    assert(all.take(0) =~= Seq::empty());
    assert(sent_blocks(content@) =~= Seq::empty());
    while i < m.content.len()
        invariant
            i <= m.content@.len(),
            all == m@.content,
            all.len() == m.content@.len(),
            sent_blocks(content@) == without_thinking(all.take(i as int)),
        decreases m.content@.len() - i,
    {
        assert(all.take(i + 1).drop_last() =~= all.take(i as int));
        assert(all.take(i + 1).last() == m.content@[i as int]@);
        if let Some(b) = map_block(&m.content[i]) {
            let ghost before = content@;
            content.push(b);
            assert(sent_blocks(content@) =~= sent_blocks(before).push(b@));
        }
        i = i + 1;
    }
    assert(all.take(i as int) =~= all);
    if content.len() == 0 {
        return None;
    }
    Some(AnthropicMessage { role: role_text(m.role).to_owned(), content })
}

/// The request that a context makes.
pub fn build_request(ctx: &RequestContext, model: &str, max_tokens: u32) -> (r: AnthropicRequest)
    ensures
        r@ == request_for(ctx@, model@, max_tokens),
{
    let ghost all = ctx@.messages;
    let mut tools: Vec<AnthropicTool> = Vec::new();
    let mut i: usize = 0;
    while i < ctx.tools.len()
        invariant
            i <= ctx.tools@.len(),
            sent_tools(tools@) == ctx@.tools.take(i as int),
        decreases ctx.tools@.len() - i,
    {
        let t = &ctx.tools[i];
        let one = AnthropicTool {
            name: t.name.clone(),
            description: t.description.clone(),
            input_schema: t.input_schema.clone(),
        };
        let ghost before = tools@;
        tools.push(one);
        assert(sent_tools(tools@) =~= sent_tools(before).push(one@));
        assert(ctx@.tools.take(i + 1) =~= ctx@.tools.take(i as int).push(ctx.tools@[i as int]@));
        i = i + 1;
    }
    assert(ctx@.tools.take(i as int) =~= ctx@.tools);
    let mut messages: Vec<AnthropicMessage> = Vec::new();
    let mut k: usize = 0;
    assert(all.take(0) =~= Seq::empty());
    assert(sent_messages(messages@) =~= Seq::empty());
    while k < ctx.messages.len()
        invariant
            k <= ctx.messages@.len(),
            all == ctx@.messages,
            all.len() == ctx.messages@.len(),
            sent_messages(messages@) == messages_sent(all.take(k as int)),
        decreases ctx.messages@.len() - k,
    {
        assert(all.take(k + 1).drop_last() =~= all.take(k as int));
        assert(all.take(k + 1).last() == ctx.messages@[k as int]@);
        if let Some(m) = map_message(&ctx.messages[k]) {
            let ghost before = messages@;
            messages.push(m);
            assert(sent_messages(messages@) =~= sent_messages(before).push(m@));
        }
        k = k + 1;
    }
    assert(all.take(k as int) =~= all);
    AnthropicRequest {
        model: model.to_owned(),
        max_tokens,
        system: ctx.system.clone(),
        tools,
        messages,
        stream: true,
    }
}

/// Thinking never reaches the service: no sent message holds any, none is empty, and everything
/// else is sent in its order.
pub proof fn law_thinking_is_not_sent(ms: Seq<MessageView>)
    ensures
        forall|i: int, j: int|
            0 <= i < messages_sent(ms).len() && 0 <= j < messages_sent(ms)[i].content.len()
                ==> !(#[trigger] messages_sent(ms)[i].content[j] is Thinking),
        forall|i: int|
            0 <= i < messages_sent(ms).len() ==> (#[trigger] messages_sent(ms)[i]).content.len() > 0,
    decreases ms.len(),
{
    if ms.len() > 0 {
        law_thinking_is_not_sent(ms.drop_last());
        lemma_without_thinking(ms.last().content);
        let before = messages_sent(ms.drop_last());
        assert forall|i: int, j: int|
            0 <= i < messages_sent(ms).len() && 0 <= j < messages_sent(
                ms,
            )[i].content.len() implies !(#[trigger] messages_sent(ms)[i].content[j] is Thinking) by {
            if i < before.len() {
                assert(messages_sent(ms)[i] == before[i]);
                assert(!(before[i].content[j] is Thinking));
            }
        }
        assert forall|i: int| 0 <= i < messages_sent(ms).len() implies (#[trigger] messages_sent(
            ms,
        )[i]).content.len() > 0 by {
            if i < before.len() {
                assert(messages_sent(ms)[i] == before[i]);
            }
        }
    }
}

proof fn lemma_without_thinking(bs: Seq<BlockView>)
    ensures
        forall|j: int|
            0 <= j < without_thinking(bs).len() ==> !(#[trigger] without_thinking(bs)[j] is Thinking),
    decreases bs.len(),
{
    if bs.len() > 0 {
        lemma_without_thinking(bs.drop_last());
        let before = without_thinking(bs.drop_last());
        assert forall|j: int| 0 <= j < without_thinking(bs).len() implies !(#[trigger] without_thinking(
            bs,
        )[j] is Thinking) by {
            if j < before.len() {
                assert(without_thinking(bs)[j] == before[j]);
            }
        }
    }
}

// ---- wire form ----

/// A block on the wire: as stored, but without an error mark that is not set.
pub open spec fn wire_block(b: BlockView) -> JsonTree {
    match b {
        BlockView::ToolResult { tool_use_id, content, is_error } => {
            let t = JsonTree::Object(
                seq![
                    ("type"@, JsonTree::Text("tool_result"@)),
                    ("tool_use_id"@, JsonTree::Text(tool_use_id)),
                    ("content"@, JsonTree::Text(content)),
                ],
            );
            if is_error {
                with_member(t, "is_error"@, JsonTree::Bool(true))
            } else {
                t
            }
        },
        _ => stored_block(b),
    }
}

/// A message on the wire.
pub open spec fn wire_message(m: SentMessage) -> JsonTree {
    JsonTree::Object(
        seq![
            ("role"@, JsonTree::Text(m.role)),
            ("content"@, JsonTree::Array(m.content.map_values(|b: BlockView| wire_block(b)))),
        ],
    )
}

/// A request on the wire: its fields in their order.
pub open spec fn wire_request(r: SentRequest) -> JsonTree {
    JsonTree::Object(
        seq![
            ("model"@, JsonTree::Text(r.model)),
            ("max_tokens"@, JsonTree::Unsigned(r.max_tokens as u64)),
            ("system"@, JsonTree::Text(r.system)),
            ("tools"@, JsonTree::Array(r.tools.map_values(|d: DefinitionView| stored_definition(d)))),
            ("messages"@, JsonTree::Array(r.messages.map_values(|m: SentMessage| wire_message(m)))),
            ("stream"@, JsonTree::Bool(r.stream)),
        ],
    )
}

impl AnthropicBlock {
    /// The block on the wire.
    pub fn to_json(&self) -> (r: Json)
        ensures
            r.tree() == wire_block(self@),
    {
        let r = match self {
            AnthropicBlock::Text { text } => {
                let r = object1("type", text_json("text"));
                add_member(r, "text", text_json(text.as_str()))
            },
            AnthropicBlock::ToolUse { id, name, input } => {
                let r = object1("type", text_json("tool_use"));
                let r = add_member(r, "id", text_json(id.as_str()));
                let r = add_member(r, "name", text_json(name.as_str()));
                add_member(r, "input", input.clone())
            },
            AnthropicBlock::ToolResult { tool_use_id, content, is_error } => {
                let r = object1("type", text_json("tool_result"));
                let r = add_member(r, "tool_use_id", text_json(tool_use_id.as_str()));
                let r = add_member(r, "content", text_json(content.as_str()));
                if *is_error {
                    add_member(r, "is_error", Json::Bool(true))
                } else {
                    r
                }
            },
        };
        assert(r.tree()->Object_0 =~= wire_block(self@)->Object_0);
        r
    }
}

impl AnthropicMessage {
    /// The message on the wire.
    pub fn to_json(&self) -> (r: Json)
        ensures
            r.tree() == wire_message(self@),
    {
        let ghost want = self@.content.map_values(|b: BlockView| wire_block(b));
        let mut blocks: Vec<Json> = Vec::new();
        let mut i: usize = 0;
        while i < self.content.len()
            invariant
                i <= self.content@.len(),
                want == self@.content.map_values(|b: BlockView| wire_block(b)),
                trees(blocks@) == want.take(i as int),
            decreases self.content@.len() - i,
        {
            let one = self.content[i].to_json();
            let ghost before = blocks@;
            blocks.push(one);
            assert(trees(blocks@) =~= trees(before).push(one.tree()));
            assert(want.take(i + 1) =~= want.take(i as int).push(want[i as int]));
            i = i + 1;
        }
        let content = Json::Array(blocks);
        proof {
            assert(want.take(i as int) =~= want);
            lemma_array(content);
        }
        let r = object1("role", text_json(self.role.as_str()));
        let r = add_member(r, "content", content);
        assert(r.tree()->Object_0 =~= wire_message(self@)->Object_0);
        r
    }
}

impl AnthropicRequest {
    /// The request on the wire.
    pub fn to_json(&self) -> (r: Json)
        ensures
            r.tree() == wire_request(self@),
    {
        let ghost want_tools = self@.tools.map_values(|d: DefinitionView| stored_definition(d));
        let mut tools: Vec<Json> = Vec::new();
        let mut i: usize = 0;
        while i < self.tools.len()
            invariant
                i <= self.tools@.len(),
                want_tools == self@.tools.map_values(|d: DefinitionView| stored_definition(d)),
                trees(tools@) == want_tools.take(i as int),
            decreases self.tools@.len() - i,
        {
            let t = &self.tools[i];
            let d = ToolDefinition {
                name: t.name.clone(),
                description: t.description.clone(),
                input_schema: t.input_schema.clone(),
            };
            let one = d.to_json();
            let ghost before = tools@;
            tools.push(one);
            assert(trees(tools@) =~= trees(before).push(one.tree()));
            assert(want_tools.take(i + 1) =~= want_tools.take(i as int).push(want_tools[i as int]));
            i = i + 1;
        }
        let ghost want = self@.messages.map_values(|m: SentMessage| wire_message(m));
        let mut messages: Vec<Json> = Vec::new();
        let mut k: usize = 0;
        while k < self.messages.len()
            invariant
                k <= self.messages@.len(),
                want == self@.messages.map_values(|m: SentMessage| wire_message(m)),
                trees(messages@) == want.take(k as int),
            decreases self.messages@.len() - k,
        {
            let one = self.messages[k].to_json();
            let ghost before = messages@;
            messages.push(one);
            assert(trees(messages@) =~= trees(before).push(one.tree()));
            assert(want.take(k + 1) =~= want.take(k as int).push(want[k as int]));
            k = k + 1;
        }
        let tools = Json::Array(tools);
        let messages = Json::Array(messages);
        proof {
            assert(want_tools.take(i as int) =~= want_tools);
            assert(want.take(k as int) =~= want);
            lemma_array(tools);
            lemma_array(messages);
        }
        let r = object1("model", text_json(self.model.as_str()));
        let r = add_member(r, "max_tokens", Json::Number(JsonNumber::Unsigned(self.max_tokens as u64)));
        let r = add_member(r, "system", text_json(self.system.as_str()));
        let r = add_member(r, "tools", tools);
        let r = add_member(r, "messages", messages);
        let r = add_member(r, "stream", Json::Bool(self.stream));
        assert(r.tree()->Object_0 =~= wire_request(self@)->Object_0);
        r
    }
}

proof fn lemma_without_is_filter(bs: Seq<BlockView>)
    ensures
        without_thinking(bs) == bs.filter(|b: BlockView| !(b is Thinking)),
    decreases bs.len(),
{
    reveal(Seq::filter);
    if bs.len() > 0 {
        lemma_without_is_filter(bs.drop_last());
    }
}

proof fn lemma_messages_at(ms: Seq<MessageView>, n: int)
    requires
        0 <= n < ms.len(),
    ensures
        messages_sent(ms) == messages_sent(ms.take(n)) + messages_sent(seq![ms[n]]) + messages_sent(
            ms.skip(n + 1),
        ),
    decreases ms.len(),
{
    let one = seq![ms[n]];
    assert(one.drop_last() =~= Seq::empty());
    reveal_with_fuel(messages_sent, 2);
    if n == ms.len() - 1 {
        assert(ms.drop_last() =~= ms.take(n));
        assert(ms.skip(n + 1) =~= Seq::empty());
        assert(messages_sent(ms) =~= messages_sent(ms.take(n)) + messages_sent(one) + messages_sent(
            ms.skip(n + 1),
        ));
    } else {
        let front = ms.drop_last();
        lemma_messages_at(front, n);
        assert(front.take(n) =~= ms.take(n));
        assert(front.skip(n + 1) =~= ms.skip(n + 1).drop_last());
        assert(ms.skip(n + 1).last() == ms.last());
        assert(messages_sent(ms) =~= messages_sent(ms.take(n)) + messages_sent(one) + messages_sent(
            ms.skip(n + 1),
        ));
    }
}

/// A conversation is sent message by message, in order. Each message is sent with all of its blocks
/// but thinking, as they are and in order, under the name of its role; one that has no others is
/// not sent.
pub proof fn law_every_block_is_sent(ms: Seq<MessageView>, n: int)
    requires
        0 <= n < ms.len(),
    ensures
        ({
            let bs = ms[n].content.filter(|b: BlockView| !(b is Thinking));
            let one = SentMessage {
                role: if ms[n].role == Role::User {
                    "user"@
                } else {
                    "assistant"@
                },
                content: bs,
            };
            let here = if bs.len() == 0 {
                Seq::empty()
            } else {
                seq![one]
            };
            messages_sent(ms) == messages_sent(ms.take(n)) + here + messages_sent(ms.skip(n + 1))
        }),
        messages_sent(Seq::empty()).len() == 0,
{
    lemma_messages_at(ms, n);
    lemma_without_is_filter(ms[n].content);
    let one = seq![ms[n]];
    assert(one.drop_last() =~= Seq::empty());
    assert(messages_sent(one.drop_last()) =~= Seq::empty());
    if without_thinking(ms[n].content).len() > 0 {
        assert(messages_sent(one) =~= seq![sent_message(ms[n])]);
    } else {
        assert(messages_sent(one) =~= Seq::empty());
    }
}

/// A request holds the model, the limit, the system prompt and the tools as they are given, and asks
/// for a stream.
pub proof fn law_request_holds_the_context(ctx: RequestView, model: Seq<char>, max_tokens: u32)
    ensures
        request_for(ctx, model, max_tokens).model == model,
        request_for(ctx, model, max_tokens).max_tokens == max_tokens,
        request_for(ctx, model, max_tokens).system == ctx.system,
        request_for(ctx, model, max_tokens).tools == ctx.tools,
        request_for(ctx, model, max_tokens).messages == messages_sent(ctx.messages),
        request_for(ctx, model, max_tokens).stream,
{
}

/// What the service reads of a block: its kind, and each of its parts under its own name. A result
/// is marked as a failure where it is one, and only there.
pub proof fn law_block_on_the_wire(b: BlockView)
    ensures
        ({
            let t = wire_block(b);
            match b {
                BlockView::Text { text } => {
                    &&& t.text_of("type"@) == Some("text"@)
                    &&& t.text_of("text"@) == Some(text)
                },
                BlockView::ToolUse { id, name, input } => {
                    &&& t.text_of("type"@) == Some("tool_use"@)
                    &&& t.text_of("id"@) == Some(id)
                    &&& t.text_of("name"@) == Some(name)
                    &&& t.get("input"@) == Some(input)
                },
                BlockView::ToolResult { tool_use_id, content, is_error } => {
                    &&& t.text_of("type"@) == Some("tool_result"@)
                    &&& t.text_of("tool_use_id"@) == Some(tool_use_id)
                    &&& t.text_of("content"@) == Some(content)
                    &&& t.get("is_error"@) == (if is_error {
                        Some(JsonTree::Bool(true))
                    } else {
                        None
                    })
                },
                BlockView::Thinking { .. } => true,
            }
        }),
{
    reveal_strlit("type");
    reveal_strlit("text");
    reveal_strlit("id");
    reveal_strlit("name");
    reveal_strlit("input");
    reveal_strlit("tool_use_id");
    reveal_strlit("content");
    reveal_strlit("is_error");
    assert("type"@.len() == 4 && "text"@.len() == 4 && "id"@.len() == 2 && "name"@.len() == 4);
    assert("input"@.len() == 5 && "tool_use_id"@.len() == 11 && "content"@.len() == 7);
    assert("is_error"@.len() == 8);
    assert("type"@[1] != "text"@[1] && "type"@[0] != "name"@[0]);
    let t = wire_block(b);
    match b {
        BlockView::Text { text } => {
            lemma_get(t, 0);
            lemma_get(t, 1);
        },
        BlockView::ToolUse { id, name, input } => {
            lemma_get(t, 0);
            lemma_get(t, 1);
            lemma_get(t, 2);
            lemma_get(t, 3);
        },
        BlockView::ToolResult { tool_use_id, content, is_error } => {
            lemma_get(t, 0);
            lemma_get(t, 1);
            lemma_get(t, 2);
            if is_error {
                assert(t->Object_0[3] == ("is_error"@, JsonTree::Bool(true)));
                lemma_get(t, 3);
            } else {
                law_member_is_the_first_of_its_name(t, "is_error"@);
            }
        },
        _ => {},
    }
}

/// What the service reads of a request: each part under its own name, with every message, every
/// block of it and every tool, in order.
pub proof fn law_request_on_the_wire(r: SentRequest, k: int, j: int)
    ensures
        ({
            let t = wire_request(r);
            &&& t.text_of("model"@) == Some(r.model)
            &&& t.unsigned_of("max_tokens"@) == Some(r.max_tokens as u64)
            &&& t.text_of("system"@) == Some(r.system)
            &&& t.get("stream"@) == Some(JsonTree::Bool(r.stream))
            &&& t.get("tools"@) matches Some(JsonTree::Array(ts)) && {
                &&& ts.len() == r.tools.len()
                &&& 0 <= k < ts.len() ==> {
                    &&& ts[k].text_of("name"@) == Some(r.tools[k].name)
                    &&& ts[k].text_of("description"@) == Some(r.tools[k].description)
                    &&& ts[k].get("input_schema"@) == Some(r.tools[k].input_schema)
                }
            }
            &&& t.get("messages"@) matches Some(JsonTree::Array(ms)) && {
                &&& ms.len() == r.messages.len()
                &&& 0 <= k < ms.len() ==> {
                    &&& ms[k].text_of("role"@) == Some(r.messages[k].role)
                    &&& ms[k].get("content"@) matches Some(JsonTree::Array(bs)) && {
                        &&& bs.len() == r.messages[k].content.len()
                        &&& 0 <= j < bs.len() ==> bs[j] == wire_block(r.messages[k].content[j])
                    }
                }
            }
        }),
{
    reveal_strlit("model");
    reveal_strlit("max_tokens");
    reveal_strlit("system");
    reveal_strlit("tools");
    reveal_strlit("messages");
    reveal_strlit("stream");
    reveal_strlit("role");
    reveal_strlit("content");
    reveal_strlit("name");
    reveal_strlit("description");
    reveal_strlit("input_schema");
    assert("model"@.len() == 5 && "max_tokens"@.len() == 10 && "system"@.len() == 6);
    assert("tools"@.len() == 5 && "messages"@.len() == 8 && "stream"@.len() == 6);
    assert("role"@.len() == 4 && "content"@.len() == 7 && "name"@.len() == 4);
    assert("description"@.len() == 11 && "input_schema"@.len() == 12);
    assert("model"@[0] != "tools"@[0] && "system"@[1] != "stream"@[1]);
    let t = wire_request(r);
    lemma_get(t, 0);
    lemma_get(t, 1);
    lemma_get(t, 2);
    lemma_get(t, 3);
    lemma_get(t, 4);
    lemma_get(t, 5);
    if 0 <= k < r.tools.len() {
        let d = stored_definition(r.tools[k]);
        lemma_get(d, 0);
        lemma_get(d, 1);
        lemma_get(d, 2);
    }
    if 0 <= k < r.messages.len() {
        let m = wire_message(r.messages[k]);
        lemma_get(m, 0);
        lemma_get(m, 1);
    }
}

} // verus!
