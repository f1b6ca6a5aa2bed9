//! Keeping the conversation short: how long it is, where it can be cut, and what is asked of the
//! model that sums it up.
use vstd::prelude::*;
use vstd::string::*;
use vstd::utf8::{encode_scalar, encode_utf8};
use crate::error::{ErrorView, LexError, Result};
use crate::json::{json_text, JsonTree};
use crate::message::{message_views, user_message, Block, BlockView, Message, MessageView, Role};
use crate::provider::{RequestContext, RequestView};
use crate::text::{cat2, cat3, cat5, join, join_texts, sub_text, to_chars, trim, trimmed, views};
use crate::tools::ToolDefinition;

verus! {

/// What the model that sums up is told to be.
pub const SUMMARIZER_SYSTEM: &'static str =
    "你是会话历史压缩器。把给定的编程 agent 对话历史压缩成一段摘要,必须保留:关键决策及理由、涉及的文件路径、未完成的待办、重要的命令与结果。直接输出摘要正文,不要寒暄。";

/// How many bytes of a block are kept.
pub const BLOCK_TEXT_LIMIT: usize = 2000;

/// What marks a text of which something was left out.
pub const CUT_MARK: &'static str = "…(截断)";

// ---- how long a conversation is ----

/// How many characters a block counts for.
pub open spec fn block_chars(b: BlockView) -> nat {
    match b {
        BlockView::Text { text } => text.len(),
        BlockView::Thinking { reasoning_content } => reasoning_content.len(),
        BlockView::ToolUse { id, name, input } => name.len() + json_text(input).len(),
        BlockView::ToolResult { tool_use_id, content, is_error } => content.len(),
    }
}

/// How many characters blocks count for.
pub open spec fn blocks_chars(bs: Seq<BlockView>) -> nat
    decreases bs.len(),
{
    if bs.len() == 0 {
        0
    } else {
        blocks_chars(bs.drop_last()) + block_chars(bs.last())
    }
}

/// How many characters a conversation counts for.
pub open spec fn history_chars(ms: Seq<MessageView>) -> nat
    decreases ms.len(),
{
    if ms.len() == 0 {
        0
    } else {
        history_chars(ms.drop_last()) + blocks_chars(ms.last().content)
    }
}

/// The smaller of a number and what can be counted.
pub open spec fn countable(n: nat) -> nat {
    if n <= u64::MAX {
        n
    } else {
        u64::MAX as nat
    }
}

/// The tokens that a conversation is taken to have: a quarter of its characters, rounded up.
pub open spec fn estimated(ms: Seq<MessageView>) -> nat {
    ((countable(history_chars(ms)) + 3) / 4) as nat
}

fn count_up(total: u64, more: usize) -> (r: u64)
    ensures
        r == countable((total + more) as nat),
{
    total.saturating_add(more as u64)
}

fn add_block(total: u64, b: &Block) -> (r: u64)
    ensures
        r == countable(total as nat + block_chars(b@)),
{
    match b {
        Block::Text { text } => count_up(total, text.as_str().unicode_len()),
        Block::Thinking { reasoning_content } => count_up(
            total,
            reasoning_content.as_str().unicode_len(),
        ),
        Block::ToolUse { id: _, name, input } => {
            let t = count_up(total, name.as_str().unicode_len());
            count_up(t, input.to_text().as_str().unicode_len())
        },
        Block::ToolResult { tool_use_id: _, content, is_error: _ } => count_up(
            total,
            content.as_str().unicode_len(),
        ),
    }
}

/// The tokens that a conversation is taken to have. The system prompt is not counted: it is always
/// there and cannot be shortened.
pub fn estimate_tokens(messages: &[Message]) -> (r: u64)
    ensures
        r == estimated(message_views(messages@)),
{
    let ghost all = message_views(messages@);
    let mut chars: u64 = 0;
    let mut i: usize = 0;
    assert(all.take(0) =~= Seq::empty());
    while i < messages.len()
        invariant
            i <= messages@.len(),
            all == message_views(messages@),
            chars == countable(history_chars(all.take(i as int))),
        decreases messages@.len() - i,
    {
        let m = &messages[i];
        let ghost bs = m@.content;
        let ghost start = history_chars(all.take(i as int));
        assert(all.take(i + 1).drop_last() =~= all.take(i as int));
        assert(all.take(i + 1).last() == m@);
        let mut k: usize = 0;
        assert(bs.take(0) =~= Seq::empty());
        while k < m.content.len()
            invariant
                k <= m.content@.len(),
                bs == m@.content,
                bs.len() == m.content@.len(),
                chars == countable(start + blocks_chars(bs.take(k as int))),
            decreases m.content@.len() - k,
        {
            assert(bs.take(k + 1).drop_last() =~= bs.take(k as int));
            assert(bs.take(k + 1).last() == m.content@[k as int]@);
            chars = add_block(chars, &m.content[k]);
            k = k + 1;
        }
        assert(bs.take(k as int) =~= bs);
        i = i + 1;
    }
    assert(all.take(i as int) =~= all);
    if chars % 4 == 0 {
        chars / 4
    } else {
        chars / 4 + 1
    }
}

/// All that a block carries for the model to read.
pub open spec fn carried(b: BlockView) -> Seq<char> {
    match b {
        BlockView::Text { text } => text,
        BlockView::Thinking { reasoning_content } => reasoning_content,
        BlockView::ToolUse { id, name, input } => name + json_text(input),
        BlockView::ToolResult { tool_use_id, content, is_error } => content,
    }
}

/// All that blocks carry, in a row.
pub open spec fn carried_by(bs: Seq<BlockView>) -> Seq<char>
    decreases bs.len(),
{
    if bs.len() == 0 {
        Seq::empty()
    } else {
        carried(bs[0]) + carried_by(bs.skip(1))
    }
}

/// All that a conversation carries, in a row.
pub open spec fn carried_over(ms: Seq<MessageView>) -> Seq<char>
    decreases ms.len(),
{
    if ms.len() == 0 {
        Seq::empty()
    } else {
        carried_by(ms[0].content) + carried_over(ms.skip(1))
    }
}

proof fn lemma_blocks_front(bs: Seq<BlockView>)
    ensures
        bs.len() > 0 ==> blocks_chars(bs) == block_chars(bs[0]) + blocks_chars(bs.skip(1)),
    decreases bs.len(),
{
    if bs.len() == 1 {
        assert(bs.skip(1) =~= Seq::empty());
        assert(bs.drop_last() =~= Seq::empty());
        reveal_with_fuel(blocks_chars, 2);
    } else if bs.len() > 1 {
        lemma_blocks_front(bs.drop_last());
        assert(bs.drop_last().skip(1) =~= bs.skip(1).drop_last());
        assert(bs.skip(1).last() == bs.last());
    }
}

proof fn lemma_history_front(ms: Seq<MessageView>)
    ensures
        ms.len() > 0 ==> history_chars(ms) == blocks_chars(ms[0].content) + history_chars(
            ms.skip(1),
        ),
    decreases ms.len(),
{
    if ms.len() == 1 {
        assert(ms.skip(1) =~= Seq::empty());
        assert(ms.drop_last() =~= Seq::empty());
        reveal_with_fuel(history_chars, 2);
    } else if ms.len() > 1 {
        lemma_history_front(ms.drop_last());
        assert(ms.drop_last().skip(1) =~= ms.skip(1).drop_last());
        assert(ms.skip(1).last() == ms.last());
    }
}

proof fn lemma_carried_by(bs: Seq<BlockView>)
    ensures
        blocks_chars(bs) == carried_by(bs).len(),
    decreases bs.len(),
{
    if bs.len() > 0 {
        lemma_blocks_front(bs);
        lemma_carried_by(bs.skip(1));
    }
}

proof fn lemma_carried_over(ms: Seq<MessageView>)
    ensures
        history_chars(ms) == carried_over(ms).len(),
    decreases ms.len(),
{
    if ms.len() > 0 {
        lemma_history_front(ms);
        lemma_carried_by(ms[0].content);
        lemma_carried_over(ms.skip(1));
    }
}

/// The estimate is a quarter of all the characters that a conversation carries, rounded up: texts,
/// thinking, the names and arguments of calls and what they returned, each character once. Where
/// there are more than can be counted, it is a quarter of that.
pub proof fn law_every_character_counts(ms: Seq<MessageView>)
    ensures
        ({
            let n = carried_over(ms).len();
            if n <= u64::MAX {
                4 * (estimated(ms) - 1) < n <= 4 * estimated(ms)
            } else {
                estimated(ms) == 0x4000_0000_0000_0000
            }
        }),
{
    lemma_carried_over(ms);
}

/// A conversation of one text counts a quarter of its characters, rounded up, whoever says it and
/// whether it is said, thought or returned by a tool. Calls count with their names and arguments.
pub proof fn law_kinds_count_alike(
    role: Role,
    body: Seq<char>,
    id: Seq<char>,
    failed: bool,
    input: JsonTree,
)
    requires
        body.len() + json_text(input).len() <= u64::MAX,
    ensures
        ({
            let of = |b: BlockView| estimated(seq![MessageView { role, content: seq![b] }]);
            &&& of(BlockView::Text { text: body }) == (body.len() + 3) / 4
            &&& of(BlockView::Thinking { reasoning_content: body }) == (body.len() + 3) / 4
            &&& of(BlockView::ToolResult { tool_use_id: id, content: body, is_error: failed }) == (
            body.len() + 3) / 4
            &&& of(BlockView::ToolUse { id, name: body, input }) == (body.len() + json_text(
                input,
            ).len() + 3) / 4
        }),
{
    let alone = |b: BlockView| MessageView { role, content: seq![b] };
    assert forall|b: BlockView| history_chars(seq![#[trigger] alone(b)]) == block_chars(b) by {
        let m = alone(b);
        assert(seq![m].drop_last() =~= Seq::<MessageView>::empty());
        assert(m.content.drop_last() =~= Seq::<BlockView>::empty());
        reveal_with_fuel(history_chars, 2);
        reveal_with_fuel(blocks_chars, 2);
    }
    assert(history_chars(seq![alone(BlockView::Text { text: body })]) == body.len());
    assert(history_chars(seq![alone(BlockView::Thinking { reasoning_content: body })])
        == body.len());
    assert(history_chars(
        seq![alone(BlockView::ToolResult { tool_use_id: id, content: body, is_error: failed })],
    ) == body.len());
    assert(history_chars(seq![alone(BlockView::ToolUse { id, name: body, input })]) == body.len()
        + json_text(input).len());
}

/// A block that comes to a conversation adds the characters it carries, at whatever place: a
/// conversation that carries `n` characters is estimated as one that carries `n` and those of the
/// block together. So no block makes the estimate smaller.
pub proof fn law_added_block_counts(
    ms: Seq<MessageView>,
    at: int,
    b: BlockView,
    body: Seq<char>,
)
    requires
        0 <= at < ms.len(),
        match b {
            BlockView::Text { text } => text == body,
            BlockView::Thinking { reasoning_content } => reasoning_content == body,
            BlockView::ToolUse { id, name, input } => name + json_text(input) == body,
            BlockView::ToolResult { tool_use_id, content, is_error } => content == body,
        },
        carried_over(ms).len() + body.len() <= u64::MAX,
    ensures
        ({
            let more = ms.update(
                at,
                MessageView { role: ms[at].role, content: ms[at].content.push(b) },
            );
            let n = carried_over(ms).len() + body.len();
            &&& 4 * (estimated(more) - 1) < n <= 4 * estimated(more)
            &&& estimated(more) >= estimated(ms)
            &&& body.len() >= 4 ==> estimated(more) > estimated(ms)
        }),
{
    let more = ms.update(at, MessageView { role: ms[at].role, content: ms[at].content.push(b) });
    lemma_carried_over(ms);
    lemma_history_at(ms, at);
    lemma_history_at(more, at);
    assert(more.take(at) =~= ms.take(at));
    assert(more.skip(at + 1) =~= ms.skip(at + 1));
    assert(ms[at].content.push(b).drop_last() =~= ms[at].content);
}

/// A conversation counts what stands before a message, the message, and what stands behind it.
proof fn lemma_history_at(ms: Seq<MessageView>, at: int)
    requires
        0 <= at < ms.len(),
    ensures
        history_chars(ms) == history_chars(ms.take(at)) + blocks_chars(ms[at].content)
            + history_chars(ms.skip(at + 1)),
    decreases ms.len(),
{
    if at == ms.len() - 1 {
        assert(ms.take(at) =~= ms.drop_last());
        assert(ms.skip(at + 1) =~= Seq::empty());
    } else {
        let front = ms.drop_last();
        lemma_history_at(front, at);
        assert(front.take(at) =~= ms.take(at));
        assert(front.skip(at + 1) =~= ms.skip(at + 1).drop_last());
        assert(ms.skip(at + 1).last() == ms.last());
    }
}

// ---- where a conversation can be cut ----

/// Whether a message opens a turn: a user message that begins with text.
pub open spec fn opens_turn(m: MessageView) -> bool {
    m.role == Role::User && m.content.len() > 0 && m.content[0] is Text
}

/// Where the last turn opens.
pub open spec fn last_turn(ms: Seq<MessageView>) -> Option<int>
    decreases ms.len(),
{
    if ms.len() == 0 {
        None
    } else if opens_turn(ms.last()) {
        Some(ms.len() - 1)
    } else {
        last_turn(ms.drop_last())
    }
}

/// Where a conversation is cut: before its last turn, where anything stands before that.
pub open spec fn cut_index(ms: Seq<MessageView>) -> Option<int> {
    match last_turn(ms) {
        Some(i) => if i > 0 {
            Some(i)
        } else {
            None
        },
        None => None,
    }
}

fn does_open_turn(m: &Message) -> (r: bool)
    ensures
        r == opens_turn(m@),
{
    if m.role == Role::User && m.content.len() > 0 {
        if let Block::Text { .. } = &m.content[0] {
            true
        } else {
            false
        }
    } else {
        false
    }
}

/// Where a conversation is cut.
pub fn find_cut_index(messages: &[Message]) -> (r: Option<usize>)
    ensures
        match r {
            Some(i) => cut_index(message_views(messages@)) == Some(i as int),
            None => cut_index(message_views(messages@)) is None,
        },
{
    let ghost all = message_views(messages@);
    let mut n: usize = messages.len();
    assert(all.take(n as int) =~= all);
    while n > 0
        invariant
            n <= messages@.len(),
            all == message_views(messages@),
            last_turn(all) == last_turn(all.take(n as int)),
        decreases n,
    {
        assert(all.take(n as int).last() == messages@[n - 1]@);
        assert(all.take(n as int).drop_last() =~= all.take(n - 1));
        if does_open_turn(&messages[n - 1]) {
            return if n - 1 > 0 {
                Some(n - 1)
            } else {
                None
            };
        }
        n = n - 1;
    }
    None
}

/// The cut stands between turns: something is before it, a user's text right behind it, and no
/// later turn.
pub proof fn law_cut_is_a_turn(ms: Seq<MessageView>)
    ensures
        cut_index(ms) matches Some(i) ==> {
            &&& 0 < i < ms.len()
            &&& opens_turn(ms[i])
            &&& forall|j: int| i < j < ms.len() ==> !opens_turn(#[trigger] ms[j])
        },
    decreases ms.len(),
{
    lemma_last_turn(ms);
}

proof fn lemma_last_turn(ms: Seq<MessageView>)
    ensures
        match last_turn(ms) {
            Some(i) => {
                &&& 0 <= i < ms.len()
                &&& opens_turn(ms[i])
                &&& forall|j: int| i < j < ms.len() ==> !opens_turn(#[trigger] ms[j])
            },
            None => forall|j: int| 0 <= j < ms.len() ==> !opens_turn(#[trigger] ms[j]),
        },
    decreases ms.len(),
{
    if ms.len() > 0 && !opens_turn(ms.last()) {
        let front = ms.drop_last();
        lemma_last_turn(front);
        assert forall|j: int|
            (match last_turn(front) {
                Some(i) => i < j < ms.len(),
                None => 0 <= j < ms.len(),
            }) implies !opens_turn(#[trigger] ms[j]) by {
            if j < front.len() {
                assert(front[j] == ms[j]);
            }
        }
    }
}

/// The cut never parts a call from its result: where a message holds the results of the calls of
/// the one before it, the cut is not between the two.
pub proof fn law_cut_keeps_calls_with_results(ms: Seq<MessageView>, k: int)
    requires
        0 <= k < ms.len(),
        ms[k].content.len() > 0,
        ms[k].content[0] is ToolResult,
    ensures
        cut_index(ms) != Some(k),
{
    lemma_last_turn(ms);
}

// ---- what is summed up ----

/// How many bytes a character has in UTF-8.
pub open spec fn utf8_len(c: char) -> nat {
    if c <= '\u{7f}' {
        1
    } else if c <= '\u{7ff}' {
        2
    } else if c <= '\u{ffff}' {
        3
    } else {
        4
    }
}

/// How many characters of `s` fit into `room` bytes.
pub open spec fn fitting(s: Seq<char>, room: int) -> nat
    decreases s.len(),
{
    if s.len() == 0 || utf8_len(s[0]) > room {
        0
    } else {
        1 + fitting(s.skip(1), room - utf8_len(s[0]))
    }
}

/// As much of a text as is kept: all of it where it fits into [`BLOCK_TEXT_LIMIT`] bytes, else
/// the characters that do and [`CUT_MARK`].
pub open spec fn kept(s: Seq<char>) -> Seq<char> {
    let n = fitting(s, BLOCK_TEXT_LIMIT as int);
    if n == s.len() {
        s
    } else {
        s.take(n as int) + CUT_MARK@
    }
}

fn len_utf8(c: char) -> (r: usize)
    ensures
        r == utf8_len(c),
{
    if c <= '\u{7f}' {
        1
    } else if c <= '\u{7ff}' {
        2
    } else if c <= '\u{ffff}' {
        3
    } else {
        4
    }
}

/// As much of a text as is kept.
pub fn truncate(s: &str) -> (r: String)
    ensures
        r@ == kept(s@),
{
    let v = to_chars(s);
    let mut n: usize = 0;
    let mut room: usize = BLOCK_TEXT_LIMIT;
    assert(v@.skip(0) =~= v@);
    while n < v.len() && len_utf8(v[n]) <= room
        invariant
            n <= v@.len(),
            room <= BLOCK_TEXT_LIMIT,
            fitting(v@, BLOCK_TEXT_LIMIT as int) == n + fitting(v@.skip(n as int), room as int),
        decreases v@.len() - n,
    {
        assert(v@.skip(n as int)[0] == v@[n as int]);
        assert(v@.skip(n as int).skip(1) =~= v@.skip(n + 1));
        room = room - len_utf8(v[n]);
        n = n + 1;
    }
    if n < v.len() {
        assert(v@.skip(n as int)[0] == v@[n as int]);
    }
    if n == v.len() {
        s.to_owned()
    } else {
        let head = sub_text(&v, 0, n);
        assert(head@ =~= s@.take(n as int));
        cat2(head.as_str(), CUT_MARK)
    }
}

/// The heading of a message.
pub open spec fn heading(r: Role) -> Seq<char> {
    match r {
        Role::User => "## 用户\n"@,
        Role::Assistant => "## 助手\n"@,
    }
}

/// A block as the model that sums up reads it; thinking is left out.
pub open spec fn block_text(b: BlockView) -> Seq<char> {
    match b {
        BlockView::Text { text } => kept(text),
        BlockView::Thinking { reasoning_content } => ""@,
        BlockView::ToolUse { id, name, input } => "[调用工具 "@ + name + "] "@ + kept(json_text(input))
            + "\n"@,
        BlockView::ToolResult { tool_use_id, content, is_error } => if is_error {
            "[工具结果(失败)] "@ + kept(content) + "\n"@
        } else {
            "[工具结果] "@ + kept(content) + "\n"@
        },
    }
}

/// The blocks of a message, in order.
pub open spec fn blocks_text(bs: Seq<BlockView>) -> Seq<char>
    decreases bs.len(),
{
    if bs.len() == 0 {
        Seq::empty()
    } else {
        blocks_text(bs.drop_last()) + block_text(bs.last())
    }
}

/// A message as the model that sums up reads it.
pub open spec fn message_text(m: MessageView) -> Seq<char> {
    heading(m.role) + blocks_text(m.content) + "\n"@
}

/// A conversation as the model that sums up reads it.
pub open spec fn history_text(ms: Seq<MessageView>) -> Seq<char>
    decreases ms.len(),
{
    if ms.len() == 0 {
        Seq::empty()
    } else {
        history_text(ms.drop_last()) + message_text(ms.last())
    }
}

fn render_block(b: &Block) -> (r: String)
    ensures
        r@ == block_text(b@),
{
    match b {
        Block::Text { text } => truncate(text.as_str()),
        Block::Thinking { .. } => "".to_owned(),
        Block::ToolUse { id: _, name, input } => {
            let body = truncate(input.to_text().as_str());
            cat5("[调用工具 ", name.as_str(), "] ", body.as_str(), "\n")
        },
        Block::ToolResult { tool_use_id: _, content, is_error } => {
            let body = truncate(content.as_str());
            if *is_error {
                cat3("[工具结果(失败)] ", body.as_str(), "\n")
            } else {
                cat3("[工具结果] ", body.as_str(), "\n")
            }
        },
    }
}

fn render_message(m: &Message) -> (r: String)
    ensures
        r@ == message_text(m@),
{
    let ghost bs = m@.content;
    let mut body = String::new();
    let mut k: usize = 0;
    assert(bs.take(0) =~= Seq::empty());
    while k < m.content.len()
        invariant
            k <= m.content@.len(),
            bs == m@.content,
            bs.len() == m.content@.len(),
            body@ == blocks_text(bs.take(k as int)),
        decreases m.content@.len() - k,
    {
        assert(bs.take(k + 1).drop_last() =~= bs.take(k as int));
        assert(bs.take(k + 1).last() == m.content@[k as int]@);
        let one = render_block(&m.content[k]);
        body.push_str(one.as_str());
        k = k + 1;
    }
    assert(bs.take(k as int) =~= bs);
    let head = match m.role {
        Role::User => "## 用户\n",
        Role::Assistant => "## 助手\n",
    };
    cat3(head, body.as_str(), "\n")
}

/// A conversation as the model that sums up reads it.
pub fn render_history_text(messages: &[Message]) -> (r: String)
    ensures
        r@ == history_text(message_views(messages@)),
{
    let ghost all = message_views(messages@);
    let mut out = String::new();
    let mut i: usize = 0;
    assert(all.take(0) =~= Seq::empty());
    while i < messages.len()
        invariant
            i <= messages@.len(),
            all == message_views(messages@),
            out@ == history_text(all.take(i as int)),
        decreases messages@.len() - i,
    {
        assert(all.take(i + 1).drop_last() =~= all.take(i as int));
        assert(all.take(i + 1).last() == messages@[i as int]@);
        let one = render_message(&messages[i]);
        out.push_str(one.as_str());
        i = i + 1;
    }
    assert(all.take(i as int) =~= all);
    out
}

/// What is asked of the model that sums up: no tools, and the history in one message.
pub open spec fn summary_asked(early: Seq<MessageView>) -> RequestView {
    RequestView {
        system: SUMMARIZER_SYSTEM@,
        tools: Seq::empty(),
        messages: seq![
            user_message("以下是需要压缩的对话历史:\n\n"@ + history_text(early) + "\n请输出摘要。"@),
        ],
    }
}

/// What is asked of the model that sums up.
pub fn summary_request(early: &[Message]) -> (r: RequestContext)
    ensures
        r@ == summary_asked(message_views(early@)),
{
    let transcript = render_history_text(early);
    let text = cat3("以下是需要压缩的对话历史:\n\n", transcript.as_str(), "\n请输出摘要。");
    let mut messages: Vec<Message> = Vec::new();
    messages.push(Message::user_text(text.as_str()));
    let tools: Vec<ToolDefinition> = Vec::new();
    let r = RequestContext { system: SUMMARIZER_SYSTEM.to_owned(), tools, messages };
    assert(r@.messages =~= summary_asked(message_views(early@)).messages);
    assert(r@.tools =~= Seq::empty());
    r
}

/// The summary in the pieces of an answer: all of them in a row, without white space at the ends;
/// an empty one is a failure.
pub fn summary_of(parts: &Vec<String>) -> (r: Result<String>)
    ensures
        ({
            let s = trim(join(views(parts@), ""@));
            match r {
                Ok(t) => s.len() > 0 && t@ == s,
                Err(e) => s.len() == 0 && e@ == ErrorView::Provider("摘要器返回空内容"@),
            }
        }),
{
    let s = trimmed(join_texts(parts, "").as_str());
    if s.as_str().is_empty() {
        return Err(LexError::Provider("摘要器返回空内容".to_owned()));
    }
    Ok(s)
}

/// Whether a message is one in which the user speaks: its first block is a text.
pub open spec fn user_speaks(m: MessageView) -> bool {
    m.role == Role::User && m.content.len() > 0 && match m.content[0] {
        BlockView::Text { .. } => true,
        _ => false,
    }
}

/// A conversation is cut before the last message in which the user speaks, where that is not its
/// first message; and it is cut nowhere only where the user speaks in no later message.
pub proof fn law_cut_is_before_the_last_task(ms: Seq<MessageView>)
    ensures
        match cut_index(ms) {
            Some(i) => {
                &&& 0 < i < ms.len()
                &&& user_speaks(ms[i])
                &&& forall|j: int| i < j < ms.len() ==> !user_speaks(#[trigger] ms[j])
            },
            None => forall|j: int| 0 < j < ms.len() ==> !user_speaks(#[trigger] ms[j]),
        },
{
    lemma_last_turn(ms);
    assert forall|m: MessageView| #[trigger] user_speaks(m) == opens_turn(m) by {}
}

proof fn lemma_char_len(c: char)
    ensures
        encode_scalar(c as u32).len() == utf8_len(c),
{
}

proof fn lemma_fitting(s: Seq<char>, room: int)
    requires
        0 <= room,
    ensures
        ({
            let n = fitting(s, room) as int;
            &&& n <= s.len()
            &&& encode_utf8(s.take(n)).len() <= room
            &&& n < s.len() ==> encode_utf8(s.take(n + 1)).len() > room
            &&& n == s.len() <==> encode_utf8(s).len() <= room
        }),
    decreases s.len(),
{
    let n = fitting(s, room) as int;
    if s.len() == 0 {
        assert(s.take(0) =~= s);
    } else {
        lemma_char_len(s[0]);
        assert(s.drop_first() =~= s.skip(1));
        if utf8_len(s[0]) > room {
            assert(s.take(0) =~= Seq::empty());
            let one = s.take(1);
            assert(one.drop_first() =~= Seq::empty());
            assert(encode_utf8(one).len() == utf8_len(s[0])) by {
                reveal_with_fuel(encode_utf8, 2);
            }
        } else {
            lemma_fitting(s.skip(1), room - utf8_len(s[0]));
            assert(s.take(n).drop_first() =~= s.skip(1).take(n - 1));
            assert(s.take(n)[0] == s[0]);
            if n < s.len() {
                assert(s.take(n + 1).drop_first() =~= s.skip(1).take(n));
                assert(s.take(n + 1)[0] == s[0]);
            }
        }
    }
}

/// A text of up to 2000 bytes is kept whole. Of a longer one as many characters are kept as fit into
/// that, from its start, and a mark says that it was cut.
pub proof fn law_long_texts_are_cut(s: Seq<char>)
    ensures
        encode_utf8(s).len() <= 2000 ==> kept(s) == s,
        encode_utf8(s).len() > 2000 ==> exists|n: int|
            {
                &&& 0 <= n < s.len()
                &&& encode_utf8(#[trigger] s.take(n)).len() <= 2000
                &&& encode_utf8(s.take(n + 1)).len() > 2000
                &&& kept(s) == s.take(n) + "…(截断)"@
            },
{
    lemma_fitting(s, 2000);
}

proof fn lemma_blocks_text_at(bs: Seq<BlockView>, i: int)
    requires
        0 <= i < bs.len(),
    ensures
        blocks_text(bs) == blocks_text(bs.take(i)) + block_text(bs[i]) + blocks_text(bs.skip(i + 1)),
    decreases bs.len(),
{
    if i == bs.len() - 1 {
        assert(bs.take(i) =~= bs.drop_last());
        assert(bs.skip(i + 1) =~= Seq::empty());
        assert(blocks_text(bs) =~= blocks_text(bs.take(i)) + block_text(bs[i]) + blocks_text(
            bs.skip(i + 1),
        ));
    } else {
        let front = bs.drop_last();
        lemma_blocks_text_at(front, i);
        assert(front.take(i) =~= bs.take(i));
        assert(front.skip(i + 1) =~= bs.skip(i + 1).drop_last());
        assert(bs.skip(i + 1).last() == bs.last());
        let a = blocks_text(bs.take(i)) + block_text(bs[i]);
        let b = blocks_text(front.skip(i + 1));
        assert(a + b + block_text(bs.last()) =~= a + (b + block_text(bs.last())));
    }
}

proof fn lemma_history_text_at(ms: Seq<MessageView>, i: int)
    requires
        0 <= i < ms.len(),
    ensures
        history_text(ms) == history_text(ms.take(i)) + message_text(ms[i]) + history_text(
            ms.skip(i + 1),
        ),
    decreases ms.len(),
{
    if i == ms.len() - 1 {
        assert(ms.take(i) =~= ms.drop_last());
        assert(ms.skip(i + 1) =~= Seq::empty());
        assert(history_text(ms) =~= history_text(ms.take(i)) + message_text(ms[i]) + history_text(
            ms.skip(i + 1),
        ));
    } else {
        let front = ms.drop_last();
        lemma_history_text_at(front, i);
        assert(front.take(i) =~= ms.take(i));
        assert(front.skip(i + 1) =~= ms.skip(i + 1).drop_last());
        assert(ms.skip(i + 1).last() == ms.last());
        let a = history_text(ms.take(i)) + message_text(ms[i]);
        let b = history_text(front.skip(i + 1));
        assert(a + b + message_text(ms.last()) =~= a + (b + message_text(ms.last())));
    }
}

/// What the model that sums up reads of a block.
pub open spec fn told_of_block(b: BlockView) -> Seq<char> {
    match b {
        BlockView::Text { text } => kept(text),
        BlockView::Thinking { .. } => Seq::empty(),
        BlockView::ToolUse { id, name, input } => "[调用工具 "@ + name + "] "@ + kept(json_text(input))
            + "\n"@,
        BlockView::ToolResult { tool_use_id, content, is_error } => (if is_error {
            "[工具结果(失败)] "@
        } else {
            "[工具结果] "@
        }) + kept(content) + "\n"@,
    }
}

/// The model that sums up is asked without tools, in one message, and reads every message before the
/// cut: who speaks, and every block in its place, texts as they are kept, calls with their names and
/// arguments, and what they returned. Thinking it does not read.
pub proof fn law_summary_reads_every_block(ms: Seq<MessageView>, i: int, k: int)
    requires
        0 <= i < ms.len(),
        0 <= k < ms[i].content.len(),
    ensures
        ({
            let r = summary_asked(ms);
            let bs = ms[i].content;
            let head = if ms[i].role == Role::User {
                "## 用户\n"@
            } else {
                "## 助手\n"@
            };
            &&& r.system == SUMMARIZER_SYSTEM@
            &&& r.tools.len() == 0
            &&& r.messages.len() == 1
            &&& r.messages[0].role == Role::User
            &&& r.messages[0].content == seq![
                BlockView::Text {
                    text: "以下是需要压缩的对话历史:\n\n"@ + history_text(ms) + "\n请输出摘要。"@,
                },
            ]
            &&& history_text(ms) == history_text(ms.take(i)) + (head + (blocks_text(bs.take(k))
                + told_of_block(bs[k]) + blocks_text(bs.skip(k + 1))) + "\n"@) + history_text(
                ms.skip(i + 1),
            )
            &&& history_text(Seq::empty()).len() == 0
            &&& blocks_text(Seq::empty()).len() == 0
        }),
{
    lemma_history_text_at(ms, i);
    lemma_blocks_text_at(ms[i].content, k);
    reveal_strlit("");
    assert(""@ =~= Seq::<char>::empty());
    assert(told_of_block(ms[i].content[k]) =~= block_text(ms[i].content[k]));
}

} // verus!
