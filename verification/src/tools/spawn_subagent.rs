//! Handing a task to a child agent.
use vstd::prelude::*;
use vstd::string::*;
use crate::error::{ErrorView, LexError, Result};
use crate::json::{add_member, object1, text_json, trees, Json, JsonTree};
use crate::text::{cat3, dec, dec_text, opt_text, views};
use crate::tools::file_read::require_str;
use crate::tools::{
    describe_as, described_as, str_views, text_list, texts_json, SubagentRequest, Tool,
};

verus! {

/// Hands a task to a child agent, of which only the summary comes back.
#[derive(Debug)]
pub struct SpawnSubagent {
    description: String,
}

/// What the model is told of the tool: what it is for, and how often a turn may use it.
pub open spec fn spawn_description(cap: u32) -> Seq<char> {
    "把一个独立、边界清晰的多步骤子任务派发给拥有独立上下文的子 agent 执行,只返回结构化摘要。每轮(同一轮对话内)最多派生 "@
        + dec(cap as nat)
        + " 个子 agent,超出会被拒绝——请优先把相近的排查合并成一个子任务。仅当子任务的执行长度/探索成本明显高于污染主上下文的代价时使用;琐碎单步操作不要派生。"@
}

/// The texts among the items of an array, in order.
pub open spec fn texts_among(a: Seq<JsonTree>) -> Seq<Seq<char>>
    decreases a.len(),
{
    if a.len() == 0 {
        Seq::empty()
    } else {
        match a.last().as_text() {
            Some(s) => texts_among(a.drop_last()).push(s),
            None => texts_among(a.drop_last()),
        }
    }
}

/// The tools that a request allows.
pub open spec fn allowed_in(input: JsonTree) -> Seq<Seq<char>> {
    match input.get("allowed_tools"@) {
        Some(t) => match t.as_items() {
            Some(a) => texts_among(a),
            None => Seq::empty(),
        },
        None => Seq::empty(),
    }
}

/// A number of tokens, as far as it can be held.
pub open spec fn clamped(n: u64) -> u32 {
    if n <= u32::MAX {
        n as u32
    } else {
        u32::MAX
    }
}

/// What a request for a child holds.
#[verifier::ext_equal]
pub struct RequestView {
    pub task: Seq<char>,
    pub allowed_tools: Seq<Seq<char>>,
    pub context: Option<Seq<char>>,
    pub context_budget: Option<u32>,
    pub allow_nested: bool,
}

impl View for SubagentRequest {
    type V = RequestView;

    open spec fn view(&self) -> RequestView {
        RequestView {
            task: self.task@,
            allowed_tools: views(self.allowed_tools@),
            context: opt_text(self.context),
            context_budget: self.context_budget,
            allow_nested: self.allow_nested,
        }
    }
}

/// The request that a call makes, or why it makes none.
pub open spec fn requested(input: JsonTree, can_spawn: bool) -> core::result::Result<
    RequestView,
    ErrorView,
> {
    if !can_spawn {
        Err(ErrorView::Tool("当前环境不允许派生子 agent(已达派生深度上限或未启用)"@))
    } else if input.text_of("task"@) is None {
        Err(ErrorView::Tool("参数 "@ + "task"@ + " 必须是字符串"@))
    } else if allowed_in(input).len() == 0 {
        Err(ErrorView::Tool("allowed_tools 不能为空:请列出子 agent 可用的工具名"@))
    } else {
        Ok(
            RequestView {
                task: input.text_of("task"@)->0,
                allowed_tools: allowed_in(input),
                context: input.text_of("context"@),
                context_budget: match input.unsigned_of("context_budget"@) {
                    Some(n) => Some(clamped(n)),
                    None => None,
                },
                allow_nested: match input.get("allow_nested"@) {
                    Some(t) => t.as_bool() == Some(true),
                    None => false,
                },
            },
        )
    }
}

fn texts_of(a: &Vec<Json>) -> (r: Vec<String>)
    ensures
        views(r@) == texts_among(trees(a@)),
{
    let ghost all = trees(a@);
    let mut r: Vec<String> = Vec::new();
    let mut i: usize = 0;
    assert(all.take(0) =~= Seq::empty());
    assert(views(r@) =~= Seq::empty());
    while i < a.len()
        invariant
            i <= a@.len(),
            all == trees(a@),
            views(r@) == texts_among(all.take(i as int)),
        decreases a@.len() - i,
    {
        assert(all.take(i + 1).drop_last() =~= all.take(i as int));
        assert(all.take(i + 1).last() == a@[i as int].tree());
        if let Some(s) = a[i].as_str() {
            let one = s.to_owned();
            let ghost before = r@;
            r.push(one);
            assert(views(r@) =~= views(before).push(one@));
        }
        i = i + 1;
    }
    assert(all.take(i as int) =~= all);
    r
}

impl SpawnSubagent {
    /// What the model is told of the tool.
    pub closed spec fn told(&self) -> Seq<char> {
        self.description@
    }

    /// The tool for turns with at most `max_children_per_turn` children.
    pub fn new(max_children_per_turn: u32) -> (r: SpawnSubagent)
        ensures
            r.told() == spawn_description(max_children_per_turn),
    {
        let n = dec_text(max_children_per_turn as u64);
        SpawnSubagent {
            description: cat3(
                "把一个独立、边界清晰的多步骤子任务派发给拥有独立上下文的子 agent 执行,只返回结构化摘要。每轮(同一轮对话内)最多派生 ",
                n.as_str(),
                " 个子 agent,超出会被拒绝——请优先把相近的排查合并成一个子任务。仅当子任务的执行长度/探索成本明显高于污染主上下文的代价时使用;琐碎单步操作不要派生。",
            ),
        }
    }

    /// The request that a call makes. What the model asks for is handed on as it is.
    pub fn parse(&self, input: &Json, can_spawn: bool) -> (r: Result<SubagentRequest>)
        ensures
            match r {
                Ok(q) => requested(input.tree(), can_spawn) == Ok::<RequestView, ErrorView>(q@),
                Err(e) => requested(input.tree(), can_spawn) == Err::<RequestView, ErrorView>(e@),
            },
    {
        if !can_spawn {
            return Err(
                LexError::Tool("当前环境不允许派生子 agent(已达派生深度上限或未启用)".to_owned()),
            );
        }
        let task = match require_str(input, "task") {
            Ok(s) => s,
            Err(e) => {
                return Err(e);
            },
        };
        let mut allowed_tools: Vec<String> = Vec::new();
        assert(views(allowed_tools@) =~= Seq::empty());
        if let Some(t) = input.get("allowed_tools") {
            if let Some(a) = t.as_array() {
                allowed_tools = texts_of(a);
            }
        }
        assert(views(allowed_tools@) == allowed_in(input.tree()));
        if allowed_tools.len() == 0 {
            return Err(
                LexError::Tool("allowed_tools 不能为空:请列出子 agent 可用的工具名".to_owned()),
            );
        }
        let context = match input.text_of("context") {
            Some(s) => Some(s.to_owned()),
            None => None,
        };
        let context_budget = match input.u64_of("context_budget") {
            Some(n) => Some(
                if n <= u32::MAX as u64 {
                    n as u32
                } else {
                    u32::MAX
                },
            ),
            None => None,
        };
        let allow_nested = match input.get("allow_nested") {
            Some(t) => match t.as_bool() {
                Some(b) => b,
                None => false,
            },
            None => false,
        };
        Ok(SubagentRequest { task, allowed_tools, context, context_budget, allow_nested })
    }
}

/// What the input of the tool looks like.
pub open spec fn spawn_schema() -> JsonTree {
    JsonTree::Object(
        seq![
            ("type"@, JsonTree::Text("object"@)),
            ("required"@, text_list(seq!["task"@, "allowed_tools"@])),
            (
                "properties"@,
                JsonTree::Object(
                    seq![
                        (
                            "task"@,
                            described_as("string"@, "子任务描述,需自包含(子 agent 看不到主对话)"@),
                        ),
                        (
                            "allowed_tools"@,
                            JsonTree::Object(
                                seq![
                                    ("type"@, JsonTree::Text("array"@)),
                                    (
                                        "items"@,
                                        JsonTree::Object(seq![("type"@, JsonTree::Text("string"@))]),
                                    ),
                                    (
                                        "description"@,
                                        JsonTree::Text("允许子 agent 使用的工具名列表"@),
                                    ),
                                ],
                            ),
                        ),
                        ("context"@, described_as("string"@, "子任务需要的必要上下文片段(可选)"@)),
                        (
                            "context_budget"@,
                            described_as(
                                "integer"@,
                                "子 agent 上下文 token 上限(可选;缺省或 0 表示继承父级,超过父级上限时按父级上限夹取)"@,
                            ),
                        ),
                        (
                            "allow_nested"@,
                            described_as(
                                "boolean"@,
                                "是否允许子 agent 再派生下一层(默认 false,硬上限共 2 层)"@,
                            ),
                        ),
                    ],
                ),
            ),
        ],
    )
}

impl Tool for SpawnSubagent {
    fn name(&self) -> (r: &str)
        ensures
            r@ == "spawn_subagent"@,
    {
        "spawn_subagent"
    }

    fn description(&self) -> (r: String)
        ensures
            r@ == self.told(),
    {
        self.description.clone()
    }

    fn schema(&self) -> (r: Json)
        ensures
            r.tree() == spawn_schema(),
    {
        let list = object1("type", text_json("array"));
        let list = add_member(list, "items", object1("type", text_json("string")));
        let list = add_member(list, "description", text_json("允许子 agent 使用的工具名列表"));
        let p = object1("task", describe_as("string", "子任务描述,需自包含(子 agent 看不到主对话)"));
        let p = add_member(p, "allowed_tools", list);
        let p = add_member(p, "context", describe_as("string", "子任务需要的必要上下文片段(可选)"));
        let p = add_member(
            p,
            "context_budget",
            describe_as(
                "integer",
                "子 agent 上下文 token 上限(可选;缺省或 0 表示继承父级,超过父级上限时按父级上限夹取)",
            ),
        );
        let p = add_member(
            p,
            "allow_nested",
            describe_as("boolean", "是否允许子 agent 再派生下一层(默认 false,硬上限共 2 层)"),
        );
        let mut q: Vec<&str> = Vec::new();
        q.push("task");
        q.push("allowed_tools");
        let r = object1("type", text_json("object"));
        let r = add_member(r, "required", texts_json(&q));
        let r = add_member(r, "properties", p);
        proof {
            let want = spawn_schema()->Object_0;
            let props = want[2].1->Object_0;
            assert(str_views(q@) =~= seq!["task"@, "allowed_tools"@]);
            assert(list.tree()->Object_0 =~= props[1].1->Object_0);
            assert(p.tree()->Object_0 =~= props);
            assert(r.tree()->Object_0 =~= want);
        }
        r
    }

    fn read_only(&self) -> (r: bool)
        ensures
            !r,
    {
        false
    }

    fn parallel_safe(&self) -> (r: bool)
        ensures
            r,
    {
        true
    }
}

proof fn lemma_texts_among(a: Seq<JsonTree>)
    ensures
        texts_among(a) == a.filter_map(|t: JsonTree| t.as_text()),
    decreases a.len(),
{
    reveal(Seq::filter_map);
    if a.len() > 0 {
        lemma_texts_among(a.drop_last());
        let before = a.drop_last().filter_map(|t: JsonTree| t.as_text());
        if let Some(s) = a.last().as_text() {
            assert(before.push(s) =~= before + seq![s]);
        }
    }
}

/// A call makes a request exactly where children may be opened, it names a task and it allows a tool
/// by name; the request then has the task, all tools that were named, in order, the context where
/// one is given, the number of tokens as far as it can be held, and leave to nest only where it is
/// asked for.
pub proof fn law_request_is_what_was_asked(input: JsonTree, can_spawn: bool)
    ensures
        ({
            let named = match input.get("allowed_tools"@) {
                Some(JsonTree::Array(a)) => a.filter_map(|t: JsonTree| t.as_text()),
                _ => Seq::empty(),
            };
            let r = requested(input, can_spawn);
            &&& r is Ok <==> can_spawn && input.text_of("task"@) is Some && named.len() > 0
            &&& r matches Ok(q) ==> {
                &&& q.task == input.text_of("task"@)->0
                &&& q.allowed_tools == named
                &&& q.context == input.text_of("context"@)
                &&& q.context_budget is Some <==> input.unsigned_of("context_budget"@) is Some
                &&& q.context_budget matches Some(n) ==> n == (if input.unsigned_of(
                    "context_budget"@,
                )->0 <= 0xffff_ffff {
                    input.unsigned_of("context_budget"@)->0
                } else {
                    0xffff_ffff
                })
                &&& q.allow_nested <==> input.get("allow_nested"@) == Some(JsonTree::Bool(true))
            }
        }),
{
    if let Some(JsonTree::Array(a)) = input.get("allowed_tools"@) {
        lemma_texts_among(a);
    }
}

} // verus!
