//! Permission for tool calls.
//!
//! A call goes through a gate: [`open_call`] decides whether it is answered at once, put to the
//! user, or run; [`after_confirm`] takes the user's answer, and [`after_run`] makes the result of
//! the run the answer to the call. Whatever stops a call becomes an answer that says so; nothing
//! ends the conversation.
use vstd::prelude::*;
use vstd::string::*;
use crate::error::{ErrorView, Result};
use crate::json::{json_text, Json, JsonTree};
use crate::message::{Block, BlockView};
use crate::pattern::any_matches;
use crate::security::rules::{decided, Decision, DecisionView, RulesView, SecurityGuard};
use crate::text::{cat2, cat3, cat4, cat5, same};
use crate::tools::{law_tool_is_found_by_name, tool_named, ToolRegistry, ToolView};

pub mod rules;

verus! {

/// What is put to the user.
#[derive(Debug, PartialEq)]
pub struct PendingAction {
    pub tool_name: String,
    pub summary: String,
    pub detail: PendingDetail,
}

/// What the user is shown of a call.
#[derive(Debug, PartialEq)]
pub enum PendingDetail {
    Bash { command: String },
    FileEdit { path: String, old_string: String, new_string: String },
    Other,
}

/// What is shown of a call.
pub enum DetailView {
    Bash { command: Seq<char> },
    FileEdit { path: Seq<char>, old_string: Seq<char>, new_string: Seq<char> },
    Other,
}

/// What is put to the user.
#[verifier::ext_equal]
pub struct PendingView {
    pub tool_name: Seq<char>,
    pub summary: Seq<char>,
    pub detail: DetailView,
}

impl View for PendingDetail {
    type V = DetailView;

    open spec fn view(&self) -> DetailView {
        match self {
            PendingDetail::Bash { command } => DetailView::Bash { command: command@ },
            PendingDetail::FileEdit { path, old_string, new_string } => DetailView::FileEdit {
                path: path@,
                old_string: old_string@,
                new_string: new_string@,
            },
            PendingDetail::Other => DetailView::Other,
        }
    }
}

impl View for PendingAction {
    type V = PendingView;

    open spec fn view(&self) -> PendingView {
        PendingView {
            tool_name: self.tool_name@,
            summary: self.summary@,
            detail: self.detail@,
        }
    }
}

/// The text of a member, or `otherwise`.
pub open spec fn text_or(input: JsonTree, key: Seq<char>, otherwise: Seq<char>) -> Seq<char> {
    match input.text_of(key) {
        Some(s) => s,
        None => otherwise,
    }
}

fn text_else<'a>(input: &'a Json, key: &str, otherwise: &'a str) -> (r: &'a str)
    ensures
        r@ == text_or(input.tree(), key@, otherwise@),
{
    match input.text_of(key) {
        Some(s) => s,
        None => otherwise,
    }
}

/// What a call does, in words.
pub open spec fn described(name: Seq<char>, input: JsonTree) -> Seq<char> {
    if name == "bash_exec"@ {
        "执行命令: "@ + text_or(input, "command"@, "<未知命令>"@)
    } else if name == "file_read"@ {
        "读取文件: "@ + text_or(input, "path"@, "<未知路径>"@)
    } else if name == "file_edit"@ {
        "编辑文件: "@ + text_or(input, "path"@, "<未知路径>"@) + "\n  - 替换前: "@ + text_or(
            input,
            "old_string"@,
            ""@,
        ) + ("\n  - 替换后: "@ + text_or(input, "new_string"@, ""@))
    } else if name == "grep_search"@ {
        "搜索内容: "@ + text_or(input, "pattern"@, "<未知模式>"@)
    } else if name == "todo_write"@ {
        "更新待办清单"@
    } else if name == "spawn_subagent"@ {
        "派生子 agent 执行子任务: "@ + text_or(input, "task"@, "<未知任务>"@)
    } else {
        "调用 "@ + name + ": "@ + json_text(input)
    }
}

/// What a call does, in words.
pub fn describe_call(name: &str, input: &Json) -> (r: String)
    ensures
        r@ == described(name@, input.tree()),
{
    if same(name, "bash_exec") {
        cat2("执行命令: ", text_else(input, "command", "<未知命令>"))
    } else if same(name, "file_read") {
        cat2("读取文件: ", text_else(input, "path", "<未知路径>"))
    } else if same(name, "file_edit") {
        let p = text_else(input, "path", "<未知路径>");
        let before = text_else(input, "old_string", "");
        let after = text_else(input, "new_string", "");
        let tail = cat2("\n  - 替换后: ", after);
        cat5("编辑文件: ", p, "\n  - 替换前: ", before, tail.as_str())
    } else if same(name, "grep_search") {
        cat2("搜索内容: ", text_else(input, "pattern", "<未知模式>"))
    } else if same(name, "todo_write") {
        "更新待办清单".to_owned()
    } else if same(name, "spawn_subagent") {
        cat2("派生子 agent 执行子任务: ", text_else(input, "task", "<未知任务>"))
    } else {
        cat4("调用 ", name, ": ", input.to_text().as_str())
    }
}

/// What the user is shown of a call: the command of a shell call and the change of an edit, as they
/// are.
pub open spec fn detail_of(name: Seq<char>, input: JsonTree) -> DetailView {
    if name == "bash_exec"@ {
        DetailView::Bash { command: text_or(input, "command"@, ""@) }
    } else if name == "file_edit"@ {
        DetailView::FileEdit {
            path: text_or(input, "path"@, ""@),
            old_string: text_or(input, "old_string"@, ""@),
            new_string: text_or(input, "new_string"@, ""@),
        }
    } else {
        DetailView::Other
    }
}

/// What the user is asked about a call.
pub open spec fn pending(name: Seq<char>, input: JsonTree) -> PendingView {
    PendingView {
        tool_name: name,
        summary: described(name, input),
        detail: detail_of(name, input),
    }
}

/// What the user is asked about a call.
pub fn pending_action(name: &str, input: &Json) -> (r: PendingAction)
    ensures
        r@ == pending(name@, input.tree()),
{
    let detail = if same(name, "bash_exec") {
        PendingDetail::Bash { command: text_else(input, "command", "").to_owned() }
    } else if same(name, "file_edit") {
        PendingDetail::FileEdit {
            path: text_else(input, "path", "").to_owned(),
            old_string: text_else(input, "old_string", "").to_owned(),
            new_string: text_else(input, "new_string", "").to_owned(),
        }
    } else {
        PendingDetail::Other
    };
    PendingAction { tool_name: name.to_owned(), summary: describe_call(name, input), detail }
}

/// What the rules are held against: the command of a shell call, the path of a file call, and
/// nothing of any other.
pub open spec fn subject_of(name: Seq<char>, input: JsonTree) -> Seq<char> {
    if name == "bash_exec"@ {
        text_or(input, "command"@, ""@)
    } else if name == "file_read"@ || name == "file_edit"@ {
        text_or(input, "path"@, ""@)
    } else {
        ""@
    }
}

/// What the rules are held against.
pub fn decision_subject(tool_name: &str, input: &Json) -> (r: String)
    ensures
        r@ == subject_of(tool_name@, input.tree()),
{
    if same(tool_name, "bash_exec") {
        text_else(input, "command", "").to_owned()
    } else if same(tool_name, "file_read") || same(tool_name, "file_edit") {
        text_else(input, "path", "").to_owned()
    } else {
        "".to_owned()
    }
}

/// The file whose content a call touches, where it does.
pub open spec fn file_touched(name: Seq<char>, input: JsonTree) -> Option<Seq<char>> {
    if name == "file_read"@ || name == "file_edit"@ {
        input.text_of("path"@)
    } else {
        None
    }
}

/// Notes the file that a call touches.
pub fn note_read(guard: &mut SecurityGuard, tool_name: &str, input: &Json)
    ensures
        final(guard).table() == old(guard).table(),
        final(guard).sensitive_read() == (old(guard).sensitive_read() || (file_touched(
            tool_name@,
            input.tree(),
        ) is Some && any_matches(
            old(guard).table().sensitive,
            file_touched(tool_name@, input.tree())->0,
        ))),
{
    if same(tool_name, "file_read") || same(tool_name, "file_edit") {
        if let Some(p) = input.text_of("path") {
            guard.note_file_read(p);
        }
    }
}

/// What is to be done with a call.
#[derive(Debug, PartialEq)]
pub enum GateStep {
    /// It is answered; the tool does not run.
    Answer(Block),
    /// The user is asked.
    Ask(PendingAction),
    /// The tool runs.
    Run,
}

/// What is to be done with a call.
pub enum GateView {
    Answer(BlockView),
    Ask(PendingView),
    Run,
}

impl View for GateStep {
    type V = GateView;

    open spec fn view(&self) -> GateView {
        match self {
            GateStep::Answer(b) => GateView::Answer(b@),
            GateStep::Ask(a) => GateView::Ask(a@),
            GateStep::Run => GateView::Run,
        }
    }
}

/// The answer to a call that failed.
pub open spec fn refusal(call_id: Seq<char>, content: Seq<char>) -> BlockView {
    BlockView::ToolResult { tool_use_id: call_id, content, is_error: true }
}

/// How a forbidden call is answered.
pub open spec fn forbidden_text(reason: Seq<char>) -> Seq<char> {
    "⛔ 操作被安全规则硬性拦截(Forbidden):"@ + reason
        + "。该拦截不接受用户确认,请改用其他方案。"@
}

/// What is done with a call that arrives: a tool that is not there and a call that is forbidden are
/// answered; the others run, or the user is asked first.
pub open spec fn opened(
    tools: Seq<ToolView>,
    table: RulesView,
    sensitive_read: bool,
    call_id: Seq<char>,
    name: Seq<char>,
    input: JsonTree,
) -> GateView {
    match tool_named(tools, name) {
        None => GateView::Answer(refusal(call_id, "未知工具: "@ + name)),
        Some(t) => match decided(table, subject_of(name, input), t.read_only, sensitive_read) {
            DecisionView::Forbidden { reason } => GateView::Answer(
                refusal(call_id, forbidden_text(reason)),
            ),
            DecisionView::Auto => GateView::Run,
            DecisionView::Confirm => GateView::Ask(pending(name, input)),
        },
    }
}

fn refuse(call_id: &str, content: String) -> (r: Block)
    ensures
        r@ == refusal(call_id@, content@),
{
    Block::ToolResult { tool_use_id: call_id.to_owned(), content, is_error: true }
}

/// Decides what is done with a call that arrives.
pub fn open_call(
    registry: &ToolRegistry,
    guard: &SecurityGuard,
    call_id: &str,
    tool_name: &str,
    input: &Json,
) -> (r: GateStep)
    ensures
        r@ == opened(
            registry.tools(),
            guard.table(),
            guard.sensitive_read(),
            call_id@,
            tool_name@,
            input.tree(),
        ),
{
    let tool = match registry.get(tool_name) {
        Some(t) => t,
        None => {
            return GateStep::Answer(refuse(call_id, cat2("未知工具: ", tool_name)));
        },
    };
    let subject = decision_subject(tool_name, input);
    match guard.decide(subject.as_str(), tool.read_only) {
        Decision::Forbidden { reason } => {
            let text = cat3(
                "⛔ 操作被安全规则硬性拦截(Forbidden):",
                reason.as_str(),
                "。该拦截不接受用户确认,请改用其他方案。",
            );
            GateStep::Answer(refuse(call_id, text))
        },
        Decision::Auto => GateStep::Run,
        Decision::Confirm => GateStep::Ask(pending_action(tool_name, input)),
    }
}

/// What is done with a call after the user was asked.
pub open spec fn answered(
    call_id: Seq<char>,
    answer: core::result::Result<bool, ErrorView>,
) -> GateView {
    match answer {
        Ok(true) => GateView::Run,
        Ok(false) => GateView::Answer(refusal(call_id, "用户拒绝执行该操作"@)),
        Err(e) => GateView::Answer(refusal(call_id, "权限确认失败: "@ + e.shown())),
    }
}

/// The view of a result with the library's error.
pub open spec fn result_of<T>(r: Result<T>) -> core::result::Result<T, ErrorView> {
    match r {
        Ok(v) => Ok(v),
        Err(e) => Err(e@),
    }
}

/// Decides what is done with a call after the user was asked.
pub fn after_confirm(call_id: &str, answer: Result<bool>) -> (r: GateStep)
    ensures
        r@ == answered(call_id@, result_of(answer)),
{
    match answer {
        Ok(true) => GateStep::Run,
        Ok(false) => GateStep::Answer(refuse(call_id, "用户拒绝执行该操作".to_owned())),
        Err(e) => GateStep::Answer(refuse(call_id, cat2("权限确认失败: ", e.to_string().as_str()))),
    }
}

/// The answer to a call that ran: what the tool gave, or how it failed.
pub open spec fn ran(
    call_id: Seq<char>,
    result: core::result::Result<Seq<char>, ErrorView>,
) -> BlockView {
    match result {
        Ok(content) => BlockView::ToolResult { tool_use_id: call_id, content, is_error: false },
        Err(e) => refusal(call_id, e.shown()),
    }
}

/// Makes the result of a run the answer to its call.
pub fn after_run(call_id: &str, result: Result<String>) -> (r: Block)
    ensures
        r@ == ran(
            call_id@,
            match result {
                Ok(s) => Ok::<Seq<char>, ErrorView>(s@),
                Err(e) => Err::<Seq<char>, ErrorView>(e@),
            },
        ),
{
    match result {
        Ok(content) => Block::ToolResult {
            tool_use_id: call_id.to_owned(),
            content,
            is_error: false,
        },
        Err(e) => refuse(call_id, e.to_string()),
    }
}

// ---- laws ----

/// A forbidden call is never put to the user and never runs: it is answered with an error.
pub proof fn law_forbidden_never_runs(
    tools: Seq<ToolView>,
    table: RulesView,
    sensitive_read: bool,
    call_id: Seq<char>,
    name: Seq<char>,
    input: JsonTree,
    read_only: bool,
)
    requires
        tool_named(tools, name) is Some,
        tool_named(tools, name)->0.read_only == read_only,
        decided(table, subject_of(name, input), read_only, sensitive_read) is Forbidden,
    ensures
        opened(tools, table, sensitive_read, call_id, name, input) matches GateView::Answer(
            BlockView::ToolResult { tool_use_id, content, is_error },
        ) && tool_use_id == call_id && is_error,
{
}

/// A call that no rule names runs without a question where its tool changes nothing, and only
/// after one where it does.
pub proof fn law_reading_is_free_writing_is_asked(
    tools: Seq<ToolView>,
    table: RulesView,
    call_id: Seq<char>,
    name: Seq<char>,
    input: JsonTree,
)
    requires
        tool_named(tools, name) is Some,
        rules::forbidden_by(table.forbidden, subject_of(name, input), 0) is None,
        !any_matches(table.confirm, subject_of(name, input)),
        !any_matches(table.auto, subject_of(name, input)),
    ensures
        opened(tools, table, false, call_id, name, input) == (if tool_named(
            tools,
            name,
        )->0.read_only {
            GateView::Run
        } else {
            GateView::Ask(pending(name, input))
        }),
{
}

/// The tool runs only where the user said yes; whatever else comes of asking is answered with an
/// error.
pub proof fn law_only_yes_runs(call_id: Seq<char>, answer: core::result::Result<bool, ErrorView>)
    ensures
        answered(call_id, answer) is Run <==> answer == Ok::<bool, ErrorView>(true),
        answer != Ok::<bool, ErrorView>(true) ==> (answered(call_id, answer) matches GateView::Answer(
            BlockView::ToolResult { tool_use_id, content, is_error },
        ) && tool_use_id == call_id && is_error),
{
}

/// The text under a key, or nothing.
pub open spec fn text_at(input: JsonTree, key: Seq<char>) -> Seq<char> {
    match input.get(key) {
        Some(JsonTree::Text(s)) => s,
        _ => Seq::empty(),
    }
}

/// The rules are held against what a call does: the command that a shell call runs, and the path
/// that a file call reads or writes, each as it stands in the input. What such a call touches is
/// told to the user as it is.
pub proof fn law_rules_see_the_call(input: JsonTree, name: Seq<char>)
    ensures
        subject_of("bash_exec"@, input) == text_at(input, "command"@),
        subject_of("file_read"@, input) == text_at(input, "path"@),
        subject_of("file_edit"@, input) == text_at(input, "path"@),
        file_touched("file_read"@, input) == input.text_of("path"@),
        file_touched("file_edit"@, input) == input.text_of("path"@),
        name != "file_read"@ && name != "file_edit"@ ==> file_touched(name, input) is None,
        name != "bash_exec"@ && name != "file_read"@ && name != "file_edit"@ ==> subject_of(
            name,
            input,
        ).len() == 0,
        pending("bash_exec"@, input).detail == (DetailView::Bash {
            command: text_at(input, "command"@),
        }),
        pending("file_edit"@, input).detail == (DetailView::FileEdit {
            path: text_at(input, "path"@),
            old_string: text_at(input, "old_string"@),
            new_string: text_at(input, "new_string"@),
        }),
        pending(name, input).tool_name == name,
        input.text_of("command"@) matches Some(c) ==> pending("bash_exec"@, input).summary
            == "执行命令: "@ + c,
        input.text_of("path"@) matches Some(p) ==> pending("file_read"@, input).summary
            == "读取文件: "@ + p,
        input.text_of("path"@) matches Some(p) ==> pending("file_edit"@, input).summary
            == "编辑文件: "@ + p + "\n  - 替换前: "@ + text_at(input, "old_string"@) + (
        "\n  - 替换后: "@ + text_at(input, "new_string"@)),
        input.text_of("pattern"@) matches Some(p) ==> pending("grep_search"@, input).summary
            == "搜索内容: "@ + p,
        input.text_of("task"@) matches Some(p) ==> pending("spawn_subagent"@, input).summary
            == "派生子 agent 执行子任务: "@ + p,
{
    reveal_strlit("bash_exec");
    reveal_strlit("file_read");
    reveal_strlit("file_edit");
    reveal_strlit("grep_search");
    reveal_strlit("todo_write");
    reveal_strlit("spawn_subagent");
    reveal_strlit("");
    assert("bash_exec"@.len() == 9 && "file_read"@.len() == 9 && "file_edit"@.len() == 9);
    assert("grep_search"@.len() == 11 && "spawn_subagent"@.len() == 14);
    assert("todo_write"@.len() == 10);
    assert("bash_exec"@[0] != "file_read"@[0] && "bash_exec"@[0] != "file_edit"@[0]);
    assert("file_read"@[5] != "file_edit"@[5]);
    assert(""@ =~= Seq::<char>::empty());
}

/// What is done with a call, in terms of the tools and the rules: a call of a tool that is not there
/// is answered with an error; one that the rules forbid is answered with an error that gives the
/// reason; one that they put to the user is put to the user; and any other runs. The tool that
/// counts is the first with the name.
pub proof fn law_gate_follows_the_rules(
    tools: Seq<ToolView>,
    table: RulesView,
    sensitive_read: bool,
    call_id: Seq<char>,
    name: Seq<char>,
    input: JsonTree,
    k: int,
)
    ensures
        ({
            let g = opened(tools, table, sensitive_read, call_id, name, input);
            &&& (forall|j: int| 0 <= j < tools.len() ==> (#[trigger] tools[j]).name != name) ==> g
                == GateView::Answer(
                BlockView::ToolResult {
                    tool_use_id: call_id,
                    content: "未知工具: "@ + name,
                    is_error: true,
                },
            )
            &&& 0 <= k < tools.len() && tools[k].name == name && (forall|j: int|
                0 <= j < k ==> (#[trigger] tools[j]).name != name) ==> match decided(
                table,
                subject_of(name, input),
                tools[k].read_only,
                sensitive_read,
            ) {
                DecisionView::Forbidden { reason } => g == GateView::Answer(
                    BlockView::ToolResult {
                        tool_use_id: call_id,
                        content: "⛔ 操作被安全规则硬性拦截(Forbidden):"@ + reason
                            + "。该拦截不接受用户确认,请改用其他方案。"@,
                        is_error: true,
                    },
                ),
                DecisionView::Auto => g is Run,
                DecisionView::Confirm => g == GateView::Ask(pending(name, input)),
            }
        }),
{
    law_tool_is_found_by_name(tools, name);
    if let Some(t) = tool_named(tools, name) {
        let n = choose|n: int|
            0 <= n < tools.len() && #[trigger] tools[n] == t && t.name == name && (forall|j: int|
                0 <= j < n ==> (#[trigger] tools[j]).name != name);
        if 0 <= k < tools.len() && tools[k].name == name && (forall|j: int|
            0 <= j < k ==> (#[trigger] tools[j]).name != name) {
            if n < k {
                assert(tools[n].name != name);
            } else if k < n {
                assert(tools[k].name != name);
            }
        }
    }
}

/// What a tool gives is the answer to its call, whole and under its id; how it failed is one too,
/// and marked as a failure.
pub proof fn law_outcome_answers_the_call(call_id: Seq<char>, content: Seq<char>, e: ErrorView)
    ensures
        ran(call_id, Ok(content)) == (BlockView::ToolResult {
            tool_use_id: call_id,
            content,
            is_error: false,
        }),
        ran(call_id, Err(e)) == (BlockView::ToolResult {
            tool_use_id: call_id,
            content: e.shown(),
            is_error: true,
        }),
{
}

} // verus!
