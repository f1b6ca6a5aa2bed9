//! Conversation messages.
use vstd::prelude::*;
use vstd::string::*;
use crate::json::{add_member, lemma_array, lemma_get, object1, text_json, trees, Json, JsonTree};

verus! {

/// Who speaks.
#[derive(Debug, Clone, Copy, PartialEq, Eq, Structural)]
pub enum Role {
    User,
    Assistant,
}

/// One part of a message.
#[derive(Debug, PartialEq)]
pub enum Block {
    Text { text: String },
    Thinking { reasoning_content: String },
    ToolUse { id: String, name: String, input: Json },
    ToolResult { tool_use_id: String, content: String, is_error: bool },
}

/// What a block holds.
pub enum BlockView {
    Text { text: Seq<char> },
    Thinking { reasoning_content: Seq<char> },
    ToolUse { id: Seq<char>, name: Seq<char>, input: JsonTree },
    ToolResult { tool_use_id: Seq<char>, content: Seq<char>, is_error: bool },
}

impl View for Block {
    type V = BlockView;

    open spec fn view(&self) -> BlockView {
        match self {
            Block::Text { text } => BlockView::Text { text: text@ },
            Block::Thinking { reasoning_content } => BlockView::Thinking {
                reasoning_content: reasoning_content@,
            },
            Block::ToolUse { id, name, input } => BlockView::ToolUse {
                id: id@,
                name: name@,
                input: input.tree(),
            },
            Block::ToolResult { tool_use_id, content, is_error } => BlockView::ToolResult {
                tool_use_id: tool_use_id@,
                content: content@,
                is_error: *is_error,
            },
        }
    }
}

/// The views of a list of blocks.
pub open spec fn block_views(v: Seq<Block>) -> Seq<BlockView> {
    Seq::new(v.len(), |i: int| v[i]@)
}

/// One message of a conversation.
#[derive(Debug, PartialEq)]
pub struct Message {
    pub role: Role,
    pub content: Vec<Block>,
}

/// What a message holds.
#[verifier::ext_equal]
pub struct MessageView {
    pub role: Role,
    pub content: Seq<BlockView>,
}

impl View for Message {
    type V = MessageView;

    open spec fn view(&self) -> MessageView {
        MessageView { role: self.role, content: block_views(self.content@) }
    }
}

/// The views of a list of messages.
pub open spec fn message_views(v: Seq<Message>) -> Seq<MessageView> {
    Seq::new(v.len(), |i: int| v[i]@)
}

/// Tokens that one reply used, and what the prefix cache saved of them.
#[derive(Debug, Clone, Copy, PartialEq, Eq, Structural)]
pub struct Usage {
    pub input_tokens: u64,
    pub output_tokens: u64,
    pub cache_hit_tokens: u64,
    pub cache_miss_tokens: u64,
}

/// No tokens at all.
pub open spec fn no_usage() -> Usage {
    Usage { input_tokens: 0, output_tokens: 0, cache_hit_tokens: 0, cache_miss_tokens: 0 }
}

impl Default for Usage {
    fn default() -> (r: Usage)
        ensures
            r == no_usage(),
    {
        Usage { input_tokens: 0, output_tokens: 0, cache_hit_tokens: 0, cache_miss_tokens: 0 }
    }
}

impl Clone for Block {
    fn clone(&self) -> (r: Self)
        ensures
            r@ == self@,
    {
        match self {
            Block::Text { text } => Block::Text { text: text.clone() },
            Block::Thinking { reasoning_content } => Block::Thinking {
                reasoning_content: reasoning_content.clone(),
            },
            Block::ToolUse { id, name, input } => Block::ToolUse {
                id: id.clone(),
                name: name.clone(),
                input: input.clone(),
            },
            Block::ToolResult { tool_use_id, content, is_error } => Block::ToolResult {
                tool_use_id: tool_use_id.clone(),
                content: content.clone(),
                is_error: *is_error,
            },
        }
    }
}

/// A copy of a list of blocks.
pub fn clone_blocks(v: &Vec<Block>) -> (r: Vec<Block>)
    ensures
        block_views(r@) == block_views(v@),
{
    let mut r: Vec<Block> = Vec::new();
    let mut i: usize = 0;
    while i < v.len()
        invariant
            i <= v@.len(),
            block_views(r@) == block_views(v@).take(i as int),
        decreases v@.len() - i,
    {
        let one = v[i].clone();
        let ghost before = r@;
        r.push(one);
        assert(block_views(r@) =~= block_views(before).push(one@));
        assert(block_views(v@).take(i + 1) =~= block_views(v@).take(i as int).push(v@[i as int]@));
        i = i + 1;
    }
    assert(block_views(v@).take(i as int) =~= block_views(v@));
    r
}

impl Clone for Message {
    fn clone(&self) -> (r: Self)
        ensures
            r@ == self@,
    {
        Message { role: self.role, content: clone_blocks(&self.content) }
    }
}

/// A copy of a list of messages.
pub fn clone_messages(v: &Vec<Message>) -> (r: Vec<Message>)
    ensures
        message_views(r@) == message_views(v@),
{
    let mut r: Vec<Message> = Vec::new();
    let mut i: usize = 0;
    while i < v.len()
        invariant
            i <= v@.len(),
            message_views(r@) == message_views(v@).take(i as int),
        decreases v@.len() - i,
    {
        let one = v[i].clone();
        let ghost before = r@;
        r.push(one);
        assert(message_views(r@) =~= message_views(before).push(one@));
        assert(message_views(v@).take(i + 1) =~= message_views(v@).take(i as int).push(
            v@[i as int]@,
        ));
        i = i + 1;
    }
    assert(message_views(v@).take(i as int) =~= message_views(v@));
    r
}

/// The message of a user that says `text`.
pub open spec fn user_message(text: Seq<char>) -> MessageView {
    MessageView { role: Role::User, content: seq![BlockView::Text { text }] }
}

/// What the result of a tool call holds.
pub open spec fn result_view(r: (&str, String, bool)) -> BlockView {
    BlockView::ToolResult { tool_use_id: r.0@, content: r.1@, is_error: r.2 }
}

impl Message {
    /// The message of a user that says `text`.
    pub fn user_text(text: &str) -> (r: Message)
        ensures
            r@ == user_message(text@),
    {
        let mut content: Vec<Block> = Vec::new();
        content.push(Block::Text { text: text.to_owned() });
        let r = Message { role: Role::User, content };
        assert(r@.content =~= seq![BlockView::Text { text: text@ }]);
        r
    }

    /// The message of an assistant made of `content`.
    pub fn assistant(content: Vec<Block>) -> (r: Message)
        ensures
            r@ == (MessageView { role: Role::Assistant, content: block_views(content@) }),
    {
        Message { role: Role::Assistant, content }
    }

    /// One user message that answers tool calls, in order: the id of each call, what came of it,
    /// and whether it failed.
    pub fn tool_results(results: Vec<(&str, String, bool)>) -> (r: Message)
        ensures
            r@.role == Role::User,
            r@.content == Seq::new(results@.len(), |i: int| result_view(results@[i])),
    {
        let ghost want = Seq::new(results@.len(), |i: int| result_view(results@[i]));
        let mut content: Vec<Block> = Vec::new();
        let mut i: usize = 0;
        while i < results.len()
            invariant
                i <= results@.len(),
                want == Seq::new(results@.len(), |i: int| result_view(results@[i])),
                block_views(content@) == want.take(i as int),
            decreases results@.len() - i,
        {
            let one = Block::ToolResult {
                tool_use_id: results[i].0.to_owned(),
                content: results[i].1.clone(),
                is_error: results[i].2,
            };
            let ghost before = content@;
            content.push(one);
            assert(block_views(content@) =~= block_views(before).push(one@));
            assert(want.take(i + 1) =~= want.take(i as int).push(want[i as int]));
            i = i + 1;
        }
        assert(want.take(i as int) =~= want);
        Message { role: Role::User, content }
    }
}

// ---- wire form ----

/// The name of a role on the wire.
pub open spec fn role_name(r: Role) -> Seq<char> {
    match r {
        Role::User => "user"@,
        Role::Assistant => "assistant"@,
    }
}

/// The name of a role on the wire.
pub fn role_text(r: Role) -> (s: &'static str)
    ensures
        s@ == role_name(r),
{
    match r {
        Role::User => "user",
        Role::Assistant => "assistant",
    }
}

/// A block as stored: its kind under `type`, then its fields in order.
pub open spec fn stored_block(b: BlockView) -> JsonTree {
    match b {
        BlockView::Text { text } => JsonTree::Object(
            seq![("type"@, JsonTree::Text("text"@)), ("text"@, JsonTree::Text(text))],
        ),
        BlockView::Thinking { reasoning_content } => JsonTree::Object(
            seq![
                ("type"@, JsonTree::Text("thinking"@)),
                ("reasoning_content"@, JsonTree::Text(reasoning_content)),
            ],
        ),
        BlockView::ToolUse { id, name, input } => JsonTree::Object(
            seq![
                ("type"@, JsonTree::Text("tool_use"@)),
                ("id"@, JsonTree::Text(id)),
                ("name"@, JsonTree::Text(name)),
                ("input"@, input),
            ],
        ),
        BlockView::ToolResult { tool_use_id, content, is_error } => JsonTree::Object(
            seq![
                ("type"@, JsonTree::Text("tool_result"@)),
                ("tool_use_id"@, JsonTree::Text(tool_use_id)),
                ("content"@, JsonTree::Text(content)),
                ("is_error"@, JsonTree::Bool(is_error)),
            ],
        ),
    }
}

/// A message as stored: its role, then its blocks.
pub open spec fn stored_message(m: MessageView) -> JsonTree {
    JsonTree::Object(
        seq![
            ("role"@, JsonTree::Text(role_name(m.role))),
            ("content"@, JsonTree::Array(Seq::new(m.content.len(), |i: int| stored_block(m.content[i])))),
        ],
    )
}

impl Block {
    /// The block as stored.
    pub fn to_json(&self) -> (r: Json)
        ensures
            r.tree() == stored_block(self@),
    {
        let r = match self {
            Block::Text { text } => {
                let r = object1("type", text_json("text"));
                add_member(r, "text", text_json(text.as_str()))
            },
            Block::Thinking { reasoning_content } => {
                let r = object1("type", text_json("thinking"));
                add_member(r, "reasoning_content", text_json(reasoning_content.as_str()))
            },
            Block::ToolUse { id, name, input } => {
                let r = object1("type", text_json("tool_use"));
                let r = add_member(r, "id", text_json(id.as_str()));
                let r = add_member(r, "name", text_json(name.as_str()));
                add_member(r, "input", input.clone())
            },
            Block::ToolResult { tool_use_id, content, is_error } => {
                let r = object1("type", text_json("tool_result"));
                let r = add_member(r, "tool_use_id", text_json(tool_use_id.as_str()));
                let r = add_member(r, "content", text_json(content.as_str()));
                add_member(r, "is_error", Json::Bool(*is_error))
            },
        };
        assert(r.tree()->Object_0 =~= stored_block(self@)->Object_0);
        r
    }
}

impl Message {
    /// The message as stored.
    pub fn to_json(&self) -> (r: Json)
        ensures
            r.tree() == stored_message(self@),
    {
        let ghost want = Seq::new(self@.content.len(), |i: int| stored_block(self@.content[i]));
        let mut blocks: Vec<Json> = Vec::new();
        let mut i: usize = 0;
        while i < self.content.len()
            invariant
                i <= self.content@.len(),
                want == Seq::new(self@.content.len(), |i: int| stored_block(self@.content[i])),
                trees(blocks@) == want.take(i as int),
            decreases self.content@.len() - i,
        {
            let one = self.content[i].to_json();
            let ghost before = blocks@;
            blocks.push(one);
            assert(trees(blocks@) =~= trees(before).push(one.tree()));
            assert(want.take(i + 1) =~= want.take(i as int).push(want[i as int]));
            i = i + 1;
        }
        let content = Json::Array(blocks);
        proof {
            assert(want.take(i as int) =~= want);
            lemma_array(content);
        }
        let r = object1("role", text_json(role_text(self.role)));
        let r = add_member(r, "content", content);
        assert(r.tree()->Object_0 =~= stored_message(self@)->Object_0);
        r
    }
}

/// What is stored of a block: its kind, and each of its parts under its own name.
pub proof fn law_block_is_stored(b: BlockView)
    ensures
        ({
            let t = stored_block(b);
            match b {
                BlockView::Text { text } => {
                    &&& t.text_of("type"@) == Some("text"@)
                    &&& t.text_of("text"@) == Some(text)
                },
                BlockView::Thinking { reasoning_content } => {
                    &&& t.text_of("type"@) == Some("thinking"@)
                    &&& t.text_of("reasoning_content"@) == Some(reasoning_content)
                },
                BlockView::ToolUse { id, name, input } => {
                    &&& t.text_of("type"@) == Some("tool_use"@)
                    &&& t.text_of("id"@) == Some(id)
                    &&& t.text_of("name"@) == Some(name)
                    &&& t.get("input"@) == Some(input)
                },
                BlockView::ToolResult { tool_use_id, content, is_error } => {
                    &&& t.text_of("type"@) == Some("tool_result"@)
                    &&& t.text_of("tool_use_id"@) == Some(tool_use_id)
                    &&& t.text_of("content"@) == Some(content)
                    &&& t.get("is_error"@) == Some(JsonTree::Bool(is_error))
                },
            }
        }),
{
    reveal_strlit("type");
    reveal_strlit("text");
    reveal_strlit("id");
    reveal_strlit("name");
    reveal_strlit("input");
    reveal_strlit("tool_use_id");
    reveal_strlit("content");
    reveal_strlit("is_error");
    reveal_strlit("reasoning_content");
    assert("type"@.len() == 4 && "text"@.len() == 4 && "id"@.len() == 2 && "name"@.len() == 4);
    assert("input"@.len() == 5 && "tool_use_id"@.len() == 11 && "content"@.len() == 7);
    assert("is_error"@.len() == 8 && "reasoning_content"@.len() == 17);
    assert("type"@[1] != "text"@[1] && "type"@[0] != "name"@[0]);
    let t = stored_block(b);
    lemma_get(t, 0);
    lemma_get(t, 1);
    if b is ToolUse || b is ToolResult {
        lemma_get(t, 2);
        lemma_get(t, 3);
    }
}

/// What is stored of a message: who speaks, and every block, in order.
pub proof fn law_message_is_stored(m: MessageView, k: int)
    requires
        0 <= k < m.content.len(),
    ensures
        ({
            let t = stored_message(m);
            &&& t.text_of("role"@) == Some(
                if m.role == Role::User {
                    "user"@
                } else {
                    "assistant"@
                },
            )
            &&& t.get("content"@) matches Some(JsonTree::Array(bs)) && bs.len() == m.content.len()
                && bs[k] == stored_block(m.content[k])
        }),
{
    reveal_strlit("role");
    reveal_strlit("content");
    assert("role"@.len() == 4 && "content"@.len() == 7);
    let t = stored_message(m);
    lemma_get(t, 0);
    lemma_get(t, 1);
}

} // verus!
