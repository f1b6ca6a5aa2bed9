//! Child agents: an agent hands a task to a fresh one and gets its summary back.
use vstd::prelude::*;
use vstd::string::*;
use crate::agent::{AgentLoop, AgentView, State};
use crate::error::{ErrorView, LexError, Result};

use crate::security::rules::{RulesView, SecurityGuard, SecurityRules};
use crate::text::{
    all_white, blank, cat2, cat3, cat4, cat5, contains, dec, dec_text, join, join_texts, occurs_at, same,
    views,
};
use crate::tools::spawn_subagent::{spawn_description, spawn_schema, RequestView, SpawnSubagent};
use crate::tools::{
    law_subset_is_a_filter, law_tool_is_found_by_name, only_allowed, tool_info, tool_named, SubagentRequest, ToolRegistry, ToolView,
};

verus! {

/// How deep children may go: the main loop is layer 0, and there are two more.
pub const MAX_SPAWN_DEPTH: u32 = 2;

/// Whether the child of an agent at `depth` may have children of its own.
pub open spec fn may_nest(depth: u32, allow_nested: bool) -> bool {
    allow_nested && depth + 2 <= MAX_SPAWN_DEPTH
}

/// Decides [`may_nest`].
pub fn nested_spawner_allowed(depth: u32, allow_nested: bool) -> (r: bool)
    ensures
        r == may_nest(depth, allow_nested),
{
    allow_nested && depth <= MAX_SPAWN_DEPTH - 2
}

/// The system prompt of a child: the main one, and behind it what holds for the child.
pub open spec fn composed(base: Seq<char>, suffix: Seq<char>) -> Seq<char> {
    base + "\n\n"@ + suffix
}

/// Makes a child's system prompt; see [`composed`].
pub fn compose_subagent_system(base: &str, suffix: &str) -> (r: String)
    ensures
        r@ == composed(base@, suffix@),
{
    cat3(base, "\n\n", suffix)
}

/// What a child is told of its task and its tools.
pub open spec fn told_child(task: Seq<char>, allowed: Seq<Seq<char>>) -> Seq<char> {
    "# 子任务模式\n你是被主 agent 派生出来的子 agent,只负责下面这一项独立子任务,完成后即结束:\n\n"@
        + task + "\n\n## 任务范围限定\n- 你只能使用以下工具:"@ + join(allowed, ", "@)
        + ";不要尝试调用列表之外的任何工具。\n- 你的执行过程不会回到主对话,主 agent 只会收到你的最终回复,请让最终回复自包含。\n- 完成任务后,最终回复必须严格使用以下结构化摘要格式:\n\n## 子任务摘要\n- **做了什么**:<步骤概述>\n- **关键结论**:<发现/结果>\n- **修改的文件**:<文件路径列表;无修改写「无」>"@
}

/// Makes what a child is told; see [`told_child`].
pub fn subagent_system_suffix(task: &str, allowed_tools: &Vec<String>) -> (r: String)
    ensures
        r@ == told_child(task@, views(allowed_tools@)),
{
    let tools = join_texts(allowed_tools, ", ");
    cat5(
        "# 子任务模式\n你是被主 agent 派生出来的子 agent,只负责下面这一项独立子任务,完成后即结束:\n\n",
        task,
        "\n\n## 任务范围限定\n- 你只能使用以下工具:",
        tools.as_str(),
        ";不要尝试调用列表之外的任何工具。\n- 你的执行过程不会回到主对话,主 agent 只会收到你的最终回复,请让最终回复自包含。\n- 完成任务后,最终回复必须严格使用以下结构化摘要格式:\n\n## 子任务摘要\n- **做了什么**:<步骤概述>\n- **关键结论**:<发现/结果>\n- **修改的文件**:<文件路径列表;无修改写「无」>",
    )
}

/// The limit of a child that asked for `budget`: its parent's where it asked for none or for zero,
/// else what it asked for, but no more than its parent has.
pub open spec fn limit_of(budget: Option<u32>, parent_limit: Option<u32>) -> Option<u32> {
    match budget {
        None => parent_limit,
        Some(0) => parent_limit,
        Some(n) => match parent_limit {
            Some(p) if p < n => Some(p),
            _ => Some(n),
        },
    }
}

/// Computes [`limit_of`].
pub fn effective_context_limit(budget: Option<u32>, parent_limit: Option<u32>) -> (r: Option<u32>)
    ensures
        r == limit_of(budget, parent_limit),
{
    match budget {
        None => parent_limit,
        Some(n) => if n == 0 {
            parent_limit
        } else {
            match parent_limit {
                Some(p) => if p < n {
                    Some(p)
                } else {
                    Some(n)
                },
                None => Some(n),
            }
        },
    }
}

/// The first message to a child: the task, behind what its parent lets it know.
pub open spec fn task_text(req: RequestView) -> Seq<char> {
    match req.context {
        Some(c) if !all_white(c) => "[父级上下文]\n"@ + c + "\n\n[子任务]\n"@ + req.task,
        _ => req.task,
    }
}

/// Makes the first message to a child; see [`task_text`].
pub fn child_task_text(req: &SubagentRequest) -> (r: String)
    ensures
        r@ == task_text(req@),
{
    if let Some(c) = &req.context {
        if !blank(c.as_str()) {
            return cat4("[父级上下文]\n", c.as_str(), "\n\n[子任务]\n", req.task.as_str());
        }
    }
    req.task.clone()
}

// ---- how many children a turn may have ----

/// How many children the tree of one turn has had, of how many it may have.
#[derive(Debug, Clone, Copy, PartialEq, Eq, Structural)]
pub struct SpawnBudget {
    pub cap: u32,
    pub used: u32,
}

/// How one child too many is told.
pub open spec fn over_budget(cap: u32) -> Seq<char> {
    "本轮派生子 agent 数量已达上限 "@ + dec(cap as nat) + " 个,禁止继续派生"@
}

/// How many children a turn has had after one more request, which is one that may be granted or not.
pub open spec fn used_next(cap: u32, used: int, grantable: bool) -> int {
    if grantable && used < cap {
        used + 1
    } else {
        used
    }
}

/// How many children a turn has had after requests, each of them one that may be granted or not.
pub open spec fn used_after(cap: u32, used: int, asked: Seq<bool>) -> int
    decreases asked.len(),
{
    if asked.len() == 0 {
        used
    } else {
        used_next(cap, used_after(cap, used, asked.drop_last()), asked.last())
    }
}

impl SpawnBudget {
    /// A budget of `cap` children a turn.
    pub fn new(cap: u32) -> (r: SpawnBudget)
        ensures
            r.cap == cap,
            r.used == 0,
    {
        SpawnBudget { cap, used: 0 }
    }

    /// A turn of the main loop begins.
    pub fn begin_turn(&mut self)
        ensures
            final(self).cap == old(self).cap,
            final(self).used == 0,
    {
        self.used = 0;
    }

    /// One more child, where the turn may have it.
    pub fn take(&mut self) -> (r: Result<()>)
        ensures
            final(self).cap == old(self).cap,
            match r {
                Ok(_) => old(self).used < old(self).cap && final(self).used == old(self).used + 1,
                Err(e) => {
                    &&& old(self).used >= old(self).cap
                    &&& final(self).used == old(self).used
                    &&& e@ == ErrorView::Tool(over_budget(old(self).cap))
                },
            },
    {
        if self.used >= self.cap {
            let n = dec_text(self.cap as u64);
            return Err(
                LexError::Tool(
                    cat3("本轮派生子 agent 数量已达上限 ", n.as_str(), " 个,禁止继续派生"),
                ),
            );
        }
        self.used = self.used + 1;
        Ok(())
    }
}

// ---- opening a child ----

/// What an agent has to open children with.
#[derive(Debug)]
pub struct SubagentRuntime {
    pub base_system: String,
    pub rules: SecurityRules,
    pub base_registry: ToolRegistry,
    pub max_turns: u32,
    pub context_limit: Option<u32>,
    /// How many children a turn may have, which the tool's description states.
    pub max_children_per_turn: u32,
    pub depth: u32,
}

/// What a runtime holds.
#[verifier::ext_equal]
pub struct RuntimeView {
    pub base_system: Seq<char>,
    pub rules: RulesView,
    pub tools: Seq<ToolView>,
    pub max_turns: u32,
    pub context_limit: Option<u32>,
    pub max_children_per_turn: u32,
    pub depth: u32,
}

impl View for SubagentRuntime {
    type V = RuntimeView;

    open spec fn view(&self) -> RuntimeView {
        RuntimeView {
            base_system: self.base_system@,
            rules: self.rules.table(),
            tools: self.base_registry.tools(),
            max_turns: self.max_turns,
            context_limit: self.context_limit,
            max_children_per_turn: self.max_children_per_turn,
            depth: self.depth,
        }
    }
}

/// A child that was opened.
#[derive(Debug)]
pub struct Child {
    pub agent: AgentLoop,
    /// What it opens children with, where it may have any.
    pub spawner: Option<SubagentRuntime>,
    /// Its first message.
    pub task: String,
}

/// What a child holds.
#[verifier::ext_equal]
pub struct ChildView {
    pub agent: AgentView,
    pub spawner: Option<RuntimeView>,
    pub task: Seq<char>,
}

impl View for Child {
    type V = ChildView;

    open spec fn view(&self) -> ChildView {
        ChildView {
            agent: self.agent@,
            spawner: match self.spawner {
                Some(s) => Some(s@),
                None => None,
            },
            task: self.task@,
        }
    }
}

/// The names that a request allows, without the tool that opens children: that one comes with leave
/// to nest alone.
pub open spec fn without_spawn(names: Seq<Seq<char>>) -> Seq<Seq<char>>
    decreases names.len(),
{
    if names.len() == 0 {
        Seq::empty()
    } else if names.last() == "spawn_subagent"@ {
        without_spawn(names.drop_last())
    } else {
        without_spawn(names.drop_last()).push(names.last())
    }
}

/// The names that no tool has.
pub open spec fn unknown_among(names: Seq<Seq<char>>, tools: Seq<ToolView>) -> Seq<Seq<char>>
    decreases names.len(),
{
    if names.len() == 0 {
        Seq::empty()
    } else if tool_named(tools, names.last()) is None {
        unknown_among(names.drop_last(), tools).push(names.last())
    } else {
        unknown_among(names.drop_last(), tools)
    }
}

/// The names of tools.
pub open spec fn names_of(tools: Seq<ToolView>) -> Seq<Seq<char>> {
    tools.map_values(|t: ToolView| t.name)
}

/// Why a runtime opens no child for a request, whatever the turn has had.
pub open spec fn refused(rt: RuntimeView, req: RequestView) -> Option<Seq<char>> {
    let allowed = without_spawn(req.allowed_tools);
    let unknown = unknown_among(allowed, rt.tools);
    if allowed.len() == 0 {
        Some("allowed_tools 过滤后为空:至少提供一个工具"@)
    } else if unknown.len() > 0 {
        Some(
            "allowed_tools 含未知工具: "@ + join(unknown, ", "@) + "(可用: "@ + join(
                names_of(rt.tools),
                ", "@,
            ) + ")"@,
        )
    } else if rt.depth + 1 > MAX_SPAWN_DEPTH {
        Some("已达派生深度硬上限 "@ + dec(MAX_SPAWN_DEPTH as nat) + " 层,禁止继续派生"@)
    } else {
        None
    }
}

/// The tool that opens children, as a registry lists it.
pub open spec fn spawn_tool(cap: u32) -> ToolView {
    ToolView {
        name: "spawn_subagent"@,
        description: spawn_description(cap),
        input_schema: spawn_schema(),
        read_only: false,
        parallel_safe: true,
    }
}

/// What a child opens its own children with: its parent's means, with its own limit, one layer
/// deeper.
pub open spec fn spawner_of(rt: RuntimeView, req: RequestView) -> Option<RuntimeView> {
    if may_nest(rt.depth, req.allow_nested) {
        Some(
            RuntimeView {
                context_limit: limit_of(req.context_budget, rt.context_limit),
                depth: (rt.depth + 1) as u32,
                ..rt
            },
        )
    } else {
        None
    }
}

/// The child that a runtime opens for a request: an agent with a history and a guard of its own,
/// under its parent's rules.
pub open spec fn child_of(rt: RuntimeView, req: RequestView) -> ChildView {
    let allowed = without_spawn(req.allowed_tools);
    let subset = only_allowed(rt.tools, allowed);
    ChildView {
        agent: AgentView {
            tools: if may_nest(rt.depth, req.allow_nested) {
                subset.push(spawn_tool(rt.max_children_per_turn))
            } else {
                subset
            },
            rules: rt.rules,
            sensitive_read: false,
            system: composed(rt.base_system, told_child(req.task, allowed)),
            history: Seq::empty(),
            max_turns: rt.max_turns,
            cache: None,
            context_limit: limit_of(req.context_budget, rt.context_limit),
            pending_summary: None,
            compress_attempted: false,
            state: State::AwaitingInput,
            turns: 0,
            text: None,
            thinking: None,
            calls: Seq::empty(),
        },
        spawner: spawner_of(rt, req),
        task: task_text(req),
    }
}

fn drop_spawn(names: &Vec<String>) -> (r: Vec<String>)
    ensures
        views(r@) == without_spawn(views(names@)),
{
    let ghost all = views(names@);
    let mut r: Vec<String> = Vec::new();
    let mut i: usize = 0;
    assert(all.take(0) =~= Seq::empty());
    assert(views(r@) =~= Seq::empty());
    while i < names.len()
        invariant
            i <= names@.len(),
            all == views(names@),
            views(r@) == without_spawn(all.take(i as int)),
        decreases names@.len() - i,
    {
        assert(all.take(i + 1).drop_last() =~= all.take(i as int));
        assert(all.take(i + 1).last() == names@[i as int]@);
        if !same(names[i].as_str(), "spawn_subagent") {
            let one = names[i].clone();
            let ghost before = r@;
            r.push(one);
            assert(views(r@) =~= views(before).push(one@));
        }
        i = i + 1;
    }
    assert(all.take(i as int) =~= all);
    r
}

fn find_unknown(names: &Vec<String>, tools: &ToolRegistry) -> (r: Vec<String>)
    ensures
        views(r@) == unknown_among(views(names@), tools.tools()),
{
    let ghost all = views(names@);
    let mut r: Vec<String> = Vec::new();
    let mut i: usize = 0;
    assert(all.take(0) =~= Seq::empty());
    assert(views(r@) =~= Seq::empty());
    while i < names.len()
        invariant
            i <= names@.len(),
            all == views(names@),
            views(r@) == unknown_among(all.take(i as int), tools.tools()),
        decreases names@.len() - i,
    {
        assert(all.take(i + 1).drop_last() =~= all.take(i as int));
        assert(all.take(i + 1).last() == names@[i as int]@);
        if tools.get(names[i].as_str()).is_none() {
            let one = names[i].clone();
            let ghost before = r@;
            r.push(one);
            assert(views(r@) =~= views(before).push(one@));
        }
        i = i + 1;
    }
    assert(all.take(i as int) =~= all);
    r
}

impl SubagentRuntime {
    /// The runtime of the main loop.
    pub fn new(
        base_system: String,
        rules: SecurityRules,
        base_registry: ToolRegistry,
        max_turns: u32,
        context_limit: Option<u32>,
        max_children_per_turn: u32,
    ) -> (r: SubagentRuntime)
        ensures
            r@ == (RuntimeView {
                base_system: base_system@,
                rules: rules.table(),
                tools: base_registry.tools(),
                max_turns,
                context_limit,
                max_children_per_turn,
                depth: 0,
            }),
    {
        SubagentRuntime {
            base_system,
            rules,
            base_registry,
            max_turns,
            context_limit,
            max_children_per_turn,
            depth: 0,
        }
    }

    /// Why no child is opened for a request, whatever the turn has had.
    fn refusal(&self, allowed: &Vec<String>, req: &SubagentRequest) -> (r: Option<String>)
        requires
            views(allowed@) == without_spawn(req@.allowed_tools),
        ensures
            match r {
                Some(m) => refused(self@, req@) == Some(m@),
                None => refused(self@, req@) is None,
            },
    {
        if allowed.len() == 0 {
            return Some("allowed_tools 过滤后为空:至少提供一个工具".to_owned());
        }
        let unknown = find_unknown(allowed, &self.base_registry);
        if unknown.len() > 0 {
            let names = self.base_registry.names();
            let head = cat4(
                "allowed_tools 含未知工具: ",
                join_texts(&unknown, ", ").as_str(),
                "(可用: ",
                join_texts(&names, ", ").as_str(),
            );
            assert(views(names@) =~= names_of(self@.tools));
            return Some(cat2(head.as_str(), ")"));
        }
        if self.depth >= MAX_SPAWN_DEPTH {
            let n = dec_text(MAX_SPAWN_DEPTH as u64);
            return Some(cat3("已达派生深度硬上限 ", n.as_str(), " 层,禁止继续派生"));
        }
        None
    }

    /// Opens a child for a request, where the request is in order and the turn may have one more.
    pub fn open_child(&self, req: &SubagentRequest, budget: &mut SpawnBudget) -> (r: Result<Child>)
        ensures
            final(budget).cap == old(budget).cap,
            final(budget).used == used_next(
                old(budget).cap,
                old(budget).used as int,
                refused(self@, req@) is None,
            ),
            match r {
                Ok(c) => {
                    &&& refused(self@, req@) is None
                    &&& old(budget).used < old(budget).cap
                    &&& final(budget).used == old(budget).used + 1
                    &&& c@ == child_of(self@, req@)
                },
                Err(e) => {
                    &&& final(budget).used == old(budget).used
                    &&& match refused(self@, req@) {
                        Some(m) => e@ == ErrorView::Tool(m),
                        None => {
                            &&& old(budget).used >= old(budget).cap
                            &&& e@ == ErrorView::Tool(over_budget(old(budget).cap))
                        },
                    }
                },
            },
    {
        let allowed = drop_spawn(&req.allowed_tools);
        if let Some(m) = self.refusal(&allowed, req) {
            return Err(LexError::Tool(m));
        }
        if let Err(e) = budget.take() {
            return Err(e);
        }
        let limit = effective_context_limit(req.context_budget, self.context_limit);
        let mut registry = self.base_registry.subset(&allowed);
        let spawner = if nested_spawner_allowed(self.depth, req.allow_nested) {
            let tool = tool_info(&SpawnSubagent::new(self.max_children_per_turn));
            assert(tool@ == spawn_tool(self@.max_children_per_turn));
            registry.register(tool);
            Some(
                SubagentRuntime {
                    base_system: self.base_system.clone(),
                    rules: self.rules.clone(),
                    base_registry: self.base_registry.clone(),
                    max_turns: self.max_turns,
                    context_limit: limit,
                    max_children_per_turn: self.max_children_per_turn,
                    depth: self.depth + 1,
                },
            )
        } else {
            None
        };
        let suffix = subagent_system_suffix(req.task.as_str(), &allowed);
        let agent = AgentLoop {
            registry,
            security: SecurityGuard::new(self.rules.clone()),
            system: compose_subagent_system(self.base_system.as_str(), suffix.as_str()),
            history: Vec::new(),
            max_turns: self.max_turns,
            cache_strategy: None,
            context_limit: limit,
            pending_summary: None,
            compress_attempted: false,
            state: State::AwaitingInput,
            turns: 0,
            text: None,
            thinking: None,
            calls: Vec::new(),
        };
        let c = Child { agent, spawner, task: child_task_text(req) };
        assert(c@.agent.history =~= Seq::empty());
        assert(c@.agent.calls =~= Seq::empty());
        assert(c@ =~= child_of(self@, req@));
        Ok(c)
    }
}

// ---- laws ----

/// The main prompt stands, letter for letter, at the start of a child's.
pub proof fn law_child_keeps_the_prompt(rt: RuntimeView, req: RequestView)
    ensures
        rt.base_system.is_prefix_of(child_of(rt, req).agent.system),
{
    let s = child_of(rt, req).agent.system;
    assert(rt.base_system =~= s.subrange(0, rt.base_system.len() as int));
}

proof fn lemma_without_spawn(names: Seq<Seq<char>>)
    ensures
        forall|n: Seq<char>|
            without_spawn(names).contains(n) <==> names.contains(n) && n != "spawn_subagent"@,
    decreases names.len(),
{
    if names.len() > 0 {
        lemma_without_spawn(names.drop_last());
        let before = without_spawn(names.drop_last());
        assert forall|n: Seq<char>|
            without_spawn(names).contains(n) <==> names.contains(n) && n
                != "spawn_subagent"@ by {
            assert(names.contains(n) <==> names.drop_last().contains(n) || n == names.last()) by {
                if names.contains(n) {
                    let i = choose|i: int| 0 <= i < names.len() && names[i] == n;
                    if i < names.len() - 1 {
                        assert(names.drop_last()[i] == n);
                    }
                }
                if names.drop_last().contains(n) {
                    let i = choose|i: int| 0 <= i < names.len() - 1 && names.drop_last()[i] == n;
                    assert(names[i] == n);
                }
                assert(names[names.len() - 1] == names.last());
            }
            if names.last() != "spawn_subagent"@ {
                let after = before.push(names.last());
                assert(after.contains(n) <==> before.contains(n) || n == names.last()) by {
                    if after.contains(n) {
                        let i = choose|i: int| 0 <= i < after.len() && after[i] == n;
                        if i < before.len() {
                            assert(before[i] == n);
                        }
                    }
                    if before.contains(n) {
                        let i = choose|i: int| 0 <= i < before.len() && before[i] == n;
                        assert(after[i] == n);
                    }
                    assert(after[after.len() - 1] == names.last());
                }
            }
        }
    }
}

proof fn lemma_only_allowed(tools: Seq<ToolView>, allowed: Seq<Seq<char>>)
    ensures
        forall|i: int|
            0 <= i < only_allowed(tools, allowed).len() ==> allowed.contains(
                (#[trigger] only_allowed(tools, allowed)[i]).name,
            ) && tools.contains(only_allowed(tools, allowed)[i]),
    decreases tools.len(),
{
    if tools.len() > 0 {
        lemma_only_allowed(tools.drop_last(), allowed);
        let before = only_allowed(tools.drop_last(), allowed);
        let after = only_allowed(tools, allowed);
        assert forall|i: int| 0 <= i < after.len() implies allowed.contains(
            (#[trigger] after[i]).name,
        ) && tools.contains(after[i]) by {
            if i < before.len() {
                assert(after[i] == before[i]);
                let k = choose|k: int|
                    0 <= k < tools.len() - 1 && tools.drop_last()[k] == before[i];
                assert(tools[k] == before[i]);
            } else {
                assert(tools[tools.len() - 1] == after[i]);
            }
        }
    }
}

/// A child has no tool that its parent lacks, save the one that opens children, which it has only
/// where it may have children; and of the others only those that were allowed.
pub proof fn law_child_gains_no_tool(rt: RuntimeView, req: RequestView, i: int)
    requires
        0 <= i < child_of(rt, req).agent.tools.len(),
    ensures
        ({
            let t = child_of(rt, req).agent.tools[i];
            if t.name == "spawn_subagent"@ {
                may_nest(rt.depth, req.allow_nested)
            } else {
                rt.tools.contains(t) && req.allowed_tools.contains(t.name)
            }
        }),
{
    let allowed = without_spawn(req.allowed_tools);
    lemma_without_spawn(req.allowed_tools);
    lemma_only_allowed(rt.tools, allowed);
    let subset = only_allowed(rt.tools, allowed);
    let tools = child_of(rt, req).agent.tools;
    if i < subset.len() {
        assert(tools[i] == subset[i]);
    }
}

/// A child is under its parent's rules and under no others, with a clean slate.
pub proof fn law_child_is_under_the_same_rules(rt: RuntimeView, req: RequestView)
    ensures
        child_of(rt, req).agent.rules == rt.rules,
        !child_of(rt, req).agent.sensitive_read,
        match child_of(rt, req).spawner {
            Some(s) => s.rules == rt.rules,
            None => true,
        },
{
}

/// A child never has more room than its parent, and asking for zero is asking for nothing.
pub proof fn law_child_has_no_more_room(budget: Option<u32>, parent: u32)
    ensures
        limit_of(budget, Some(parent)) is Some,
        limit_of(budget, Some(parent))->0 <= parent,
        limit_of(Some(0), Some(parent)) == Some(parent),
{
}

/// There are never more layers than the cap: whoever stands at the cap opens no child, each child's
/// own means are one layer deeper, and where those would stand at the cap it has none.
pub proof fn law_depth_is_capped(rt: RuntimeView, req: RequestView)
    requires
        rt.depth <= MAX_SPAWN_DEPTH,
    ensures
        rt.depth == MAX_SPAWN_DEPTH ==> refused(rt, req) is Some,
        match child_of(rt, req).spawner {
            Some(s) => s.depth == rt.depth + 1 && s.depth < MAX_SPAWN_DEPTH,
            None => true,
        },
{
}

/// However many children are asked for in a turn, at whatever depth, it has no more than the cap; and
/// as long as there is room every request that may be granted is.
pub proof fn law_children_of_a_turn_are_capped(cap: u32, asked: Seq<bool>)
    ensures
        0 <= used_after(cap, 0, asked) <= cap,
        (forall|i: int| 0 <= i < asked.len() ==> asked[i]) ==> used_after(cap, 0, asked) == (
        if asked.len() <= cap {
            asked.len() as int
        } else {
            cap as int
        }),
    decreases asked.len(),
{
    if asked.len() > 0 {
        law_children_of_a_turn_are_capped(cap, asked.drop_last());
        if forall|i: int| 0 <= i < asked.len() ==> asked[i] {
            assert(asked.last());
            assert forall|i: int| 0 <= i < asked.drop_last().len() implies asked.drop_last()[i] by {
                assert(asked[i]);
            }
        }
    }
}

proof fn lemma_without_spawn_is_filter(names: Seq<Seq<char>>)
    ensures
        without_spawn(names) == names.filter(|n: Seq<char>| n != "spawn_subagent"@),
    decreases names.len(),
{
    reveal(Seq::filter);
    if names.len() > 0 {
        lemma_without_spawn_is_filter(names.drop_last());
    }
}

proof fn lemma_unknown(names: Seq<Seq<char>>, tools: Seq<ToolView>)
    ensures
        unknown_among(names, tools).len() > 0 <==> exists|k: int|
            0 <= k < names.len() && tool_named(tools, #[trigger] names[k]) is None,
    decreases names.len(),
{
    if names.len() > 0 {
        let front = names.drop_last();
        lemma_unknown(front, tools);
        assert(names[names.len() - 1] == names.last());
        if exists|k: int| 0 <= k < front.len() && tool_named(tools, #[trigger] front[k]) is None {
            let k = choose|k: int|
                0 <= k < front.len() && tool_named(tools, #[trigger] front[k]) is None;
            assert(names[k] == front[k]);
        }
        if exists|k: int| 0 <= k < names.len() && tool_named(tools, #[trigger] names[k]) is None {
            let k = choose|k: int|
                0 <= k < names.len() && tool_named(tools, #[trigger] names[k]) is None;
            if k < front.len() {
                assert(front[k] == names[k]);
            }
        }
    }
}

/// A request is refused exactly where it names no tool but the one that opens children, names one
/// that its parent has not, or comes from the second layer.
pub proof fn law_refusals(rt: RuntimeView, req: RequestView)
    ensures
        ({
            let named = req.allowed_tools.filter(|n: Seq<char>| n != "spawn_subagent"@);
            refused(rt, req) is Some <==> {
                ||| named.len() == 0
                ||| rt.depth >= 2
                ||| exists|k: int|
                    0 <= k < named.len() && forall|j: int|
                        0 <= j < rt.tools.len() ==> (#[trigger] rt.tools[j]).name
                            != #[trigger] named[k]
            }
        }),
{
    let named = req.allowed_tools.filter(|n: Seq<char>| n != "spawn_subagent"@);
    lemma_without_spawn_is_filter(req.allowed_tools);
    lemma_unknown(named, rt.tools);
    assert forall|k: int| 0 <= k < named.len() implies (tool_named(rt.tools, #[trigger] named[k])
        is None <==> forall|j: int|
        0 <= j < rt.tools.len() ==> (#[trigger] rt.tools[j]).name != named[k]) by {
        law_tool_is_found_by_name(rt.tools, named[k]);
    }
}

/// A child starts with nothing but its task: an empty history, its parent's tools as far as they were
/// named, all of these and in order, and the one that opens children only where it is the child of
/// the main agent and asked for it. Its limit is what it asked for, but no more than its parent has;
/// where it asked for none or for zero it is its parent's. Its prompt is the main one, and behind it
/// what holds for a child, its task among it; its first message is its task, behind what its parent
/// lets it know.
pub proof fn law_child_starts_with_its_task(rt: RuntimeView, req: RequestView)
    ensures
        ({
            let c = child_of(rt, req);
            let named = req.allowed_tools.filter(|n: Seq<char>| n != "spawn_subagent"@);
            let own = rt.tools.filter(|t: ToolView| named.contains(t.name));
            let nests = req.allow_nested && rt.depth == 0;
            let asked = req.context_budget is Some && req.context_budget->0 > 0;
            &&& c.agent.history.len() == 0
            &&& c.agent.pending_summary is None
            &&& !c.agent.compress_attempted
            &&& c.agent.max_turns == rt.max_turns
            &&& c.agent.cache is None
            &&& !nests ==> c.agent.tools == own && c.spawner is None
            &&& nests ==> {
                &&& c.agent.tools.len() == own.len() + 1
                &&& c.agent.tools.drop_last() == own
                &&& c.agent.tools.last().name == "spawn_subagent"@
                &&& c.spawner is Some
                &&& c.spawner->0.depth == 1
                &&& c.spawner->0.tools == rt.tools
                &&& c.spawner->0.context_limit == c.agent.context_limit
                &&& c.spawner->0.max_children_per_turn == rt.max_children_per_turn
            }
            &&& !asked ==> c.agent.context_limit == rt.context_limit
            &&& asked && rt.context_limit is None ==> c.agent.context_limit == req.context_budget
            &&& asked && rt.context_limit is Some ==> c.agent.context_limit == Some(
                if req.context_budget->0 < rt.context_limit->0 {
                    req.context_budget->0
                } else {
                    rt.context_limit->0
                },
            )
            &&& c.agent.system == rt.base_system + "\n\n"@ + told_child(req.task, named)
            &&& contains(c.agent.system, req.task)
            &&& contains(c.agent.system, join(named, ", "@))
            &&& req.context is None ==> c.task == req.task
            &&& req.context matches Some(x) ==> c.task == (if all_white(x) {
                req.task
            } else {
                "[父级上下文]\n"@ + x + "\n\n[子任务]\n"@ + req.task
            })
        }),
{
    let c = child_of(rt, req);
    let named = req.allowed_tools.filter(|n: Seq<char>| n != "spawn_subagent"@);
    lemma_without_spawn_is_filter(req.allowed_tools);
    law_subset_is_a_filter(rt.tools, named);
    let own = rt.tools.filter(|t: ToolView| named.contains(t.name));
    if req.allow_nested && rt.depth == 0 {
        assert(c.agent.tools.drop_last() =~= own);
    }
    let head = rt.base_system + "\n\n"@;
    let intro =
        "# 子任务模式\n你是被主 agent 派生出来的子 agent,只负责下面这一项独立子任务,完成后即结束:\n\n"@;
    let scope = "\n\n## 任务范围限定\n- 你只能使用以下工具:"@;
    let list = join(named, ", "@);
    let i = (head.len() + intro.len()) as int;
    let s = c.agent.system;
    assert(s.subrange(i, i + req.task.len()) =~= req.task);
    assert(occurs_at(s, req.task, i));
    let j = (i + req.task.len() + scope.len()) as int;
    assert(s.subrange(j, j + list.len()) =~= list);
    assert(occurs_at(s, list, j));
}

} // verus!
