//! How a session is put together from its configuration.
use vstd::prelude::*;
use vstd::string::*;
use crate::agent::subagent::{spawn_tool, RuntimeView, SubagentRuntime};
use crate::agent::{AgentLoop, AgentView, State};
use crate::config::{Config, ConfigView};
use crate::provider::anthropic::AnthropicProvider;
use crate::provider::cache::{CacheView, ImplicitPrefixCacheStrategy};
use crate::provider::openai_compat::OpenAiCompatProvider;
use crate::provider::openai_types::OpenAiParams;
use crate::prompt::var_views;
use crate::security::rules::{SecurityGuard, SecurityRules};
use crate::text::{
    all_white, at, blank, clone_opt, clone_texts, occurs_at, opt_text, same, sub_text, to_chars, views,
};
use crate::tools::bash_exec::{bash_schema, BashExec};
use crate::tools::file_edit::{file_edit_schema, FileEdit};
use crate::tools::file_read::{file_read_schema, FileRead};
use crate::tools::grep_search::{grep_schema, GrepSearch};
use crate::tools::spawn_subagent::SpawnSubagent;
use crate::tools::todo_write::{todo_schema, TodoWrite};
use crate::tools::{bash_exec, file_edit, file_read, grep_search, todo_write};
use crate::tools::{tool_info, ShellCommand, ToolRegistry, ToolView};
use crate::tui::run::{submission, submitted, Submission};
use crate::ui::input::{remembered, InputHistory};

verus! {

// ---- the project ----

/// Which of the files that tell a project's kind stand in its directory.
#[derive(Debug, Clone, Copy, PartialEq, Eq, Structural)]
pub struct ProjectFiles {
    pub cargo_toml: bool,
    pub package_json: bool,
    pub pyproject_toml: bool,
    pub requirements_txt: bool,
    pub go_mod: bool,
}

/// What kind of project it is.
pub open spec fn project_kind(f: ProjectFiles) -> Seq<char> {
    if f.cargo_toml {
        "Rust"@
    } else if f.package_json {
        "Node.js"@
    } else if f.pyproject_toml || f.requirements_txt {
        "Python"@
    } else if f.go_mod {
        "Go"@
    } else {
        "未知"@
    }
}

/// What kind of project it is.
pub fn detect_project_type(files: ProjectFiles) -> (r: &'static str)
    ensures
        r@ == project_kind(files),
{
    if files.cargo_toml {
        "Rust"
    } else if files.package_json {
        "Node.js"
    } else if files.pyproject_toml || files.requirements_txt {
        "Python"
    } else if files.go_mod {
        "Go"
    } else {
        "未知"
    }
}

/// What the placeholders of the system prompt stand for.
pub fn prompt_vars(cwd: &str, os: &str, project_type: &str) -> (r: Vec<(&'static str, String)>)
    ensures
        var_views(r@) == seq![
            ("CWD"@, cwd@),
            ("OS"@, os@),
            ("PROJECT_TYPE"@, project_type@),
            ("TOOL_TODO"@, "todo_write"@),
        ],
{
    let mut r: Vec<(&'static str, String)> = Vec::new();
    r.push(("CWD", cwd.to_owned()));
    r.push(("OS", os.to_owned()));
    r.push(("PROJECT_TYPE", project_type.to_owned()));
    r.push(("TOOL_TODO", "todo_write".to_owned()));
    assert(var_views(r@) =~= seq![
        ("CWD"@, cwd@),
        ("OS"@, os@),
        ("PROJECT_TYPE"@, project_type@),
        ("TOOL_TODO"@, "todo_write"@),
    ]);
    r
}

/// A path without the marks that it begins with on Windows.
pub open spec fn without_marks(p: Seq<char>) -> Seq<char>
    decreases p.len(),
{
    if occurs_at(p, "\\\\?\\"@, 0) && "\\\\?\\"@.len() > 0 {
        without_marks(p.skip("\\\\?\\"@.len() as int))
    } else {
        p
    }
}

/// A path as it is shown.
pub fn display_path(p: &str) -> (r: String)
    ensures
        r@ == without_marks(p@),
{
    let v = to_chars(p);
    let mark = to_chars("\\\\?\\");
    proof {
        reveal_strlit("\\\\?\\");
    }
    let n: usize = v.len();
    let mut i: usize = 0;
    assert(v@.skip(0) =~= v@);
    while at(v.as_slice(), mark.as_slice(), i)
        invariant
            i <= n,
            n == v@.len(),
            mark@ == "\\\\?\\"@,
            mark@.len() == 4,
            without_marks(v@) == without_marks(v@.skip(i as int)),
        decreases n - i,
    {
        assert(v@.skip(i as int).subrange(0, 4) =~= v@.subrange(i as int, i + 4));
        assert(v@.skip(i as int).skip(4) =~= v@.skip(i + 4));
        i = i + 4;
    }
    proof {
        let rest = v@.skip(i as int);
        if occurs_at(rest, mark@, 0) {
            assert(v@.subrange(i as int, i + 4) =~= rest.subrange(0, 4));
        }
    }
    let r = sub_text(v.as_slice(), i, n);
    assert(r@ =~= v@.skip(i as int));
    r
}

// ---- the service ----

/// The model of the chosen service.
pub fn current_model(cfg: &Config) -> (r: String)
    ensures
        r@ == (if cfg@.provider == "openai"@ {
            cfg@.openai.model
        } else {
            cfg@.anthropic.model
        }),
{
    if same(cfg.provider.as_str(), "openai") {
        cfg.openai.model.clone()
    } else {
        cfg.anthropic.model.clone()
    }
}

/// The chosen service.
#[derive(Debug)]
pub enum Service {
    Anthropic(AnthropicProvider),
    OpenAi(OpenAiCompatProvider),
}

/// The service that a configuration chooses.
pub fn service_of(cfg: &Config, api_key: &str) -> (r: Service)
    ensures
        match r {
            Service::OpenAi(p) => {
                &&& cfg@.provider == "openai"@
                &&& p.base_url@ == cfg@.openai.base_url
                &&& p.model@ == cfg@.openai.model
                &&& p.params.max_tokens == cfg@.openai.max_tokens
                &&& opt_text(p.params.thinking) == cfg@.openai.thinking
                &&& opt_text(p.params.reasoning_effort) == cfg@.openai.reasoning_effort
                &&& opt_text(p.params.user_id) == cfg@.openai.user_id
                &&& p.api_key@ == api_key@
            },
            Service::Anthropic(p) => {
                &&& cfg@.provider != "openai"@
                &&& p.base_url@ == cfg@.anthropic.base_url
                &&& p.model@ == cfg@.anthropic.model
                &&& p.max_tokens == cfg@.anthropic.max_tokens
                &&& p.api_key@ == api_key@
            },
        },
{
    if same(cfg.provider.as_str(), "openai") {
        Service::OpenAi(
            OpenAiCompatProvider::new(
                cfg.openai.base_url.clone(),
                cfg.openai.model.clone(),
                OpenAiParams {
                    max_tokens: cfg.openai.max_tokens,
                    thinking: clone_opt(&cfg.openai.thinking),
                    reasoning_effort: clone_opt(&cfg.openai.reasoning_effort),
                    user_id: clone_opt(&cfg.openai.user_id),
                },
                api_key.to_owned(),
            ),
        )
    } else {
        Service::Anthropic(
            AnthropicProvider::new(
                cfg.anthropic.base_url.clone(),
                cfg.anthropic.model.clone(),
                cfg.anthropic.max_tokens,
                api_key.to_owned(),
            ),
        )
    }
}

// ---- the tools ----

/// The tool that reads a file.
pub open spec fn file_read_tool() -> ToolView {
    ToolView {
        name: "file_read"@,
        description: file_read::DESCRIPTION@,
        input_schema: file_read_schema(),
        read_only: true,
        parallel_safe: true,
    }
}

/// The tool that changes a file.
pub open spec fn file_edit_tool() -> ToolView {
    ToolView {
        name: "file_edit"@,
        description: file_edit::DESCRIPTION@,
        input_schema: file_edit_schema(),
        read_only: false,
        parallel_safe: false,
    }
}

/// The tool that runs a command.
pub open spec fn bash_exec_tool() -> ToolView {
    ToolView {
        name: "bash_exec"@,
        description: bash_exec::DESCRIPTION@,
        input_schema: bash_schema(),
        read_only: false,
        parallel_safe: false,
    }
}

/// The tool that searches files.
pub open spec fn grep_search_tool() -> ToolView {
    ToolView {
        name: "grep_search"@,
        description: grep_search::DESCRIPTION@,
        input_schema: grep_schema(),
        read_only: true,
        parallel_safe: true,
    }
}

/// The tool that keeps the to-do list.
pub open spec fn todo_write_tool() -> ToolView {
    ToolView {
        name: "todo_write"@,
        description: todo_write::DESCRIPTION@,
        input_schema: todo_schema(),
        read_only: true,
        parallel_safe: true,
    }
}

/// The tools of a session, in the order in which the model sees them.
pub open spec fn session_tools(max_children_per_turn: u32) -> Seq<ToolView> {
    seq![
        file_read_tool(),
        file_edit_tool(),
        bash_exec_tool(),
        grep_search_tool(),
        todo_write_tool(),
        spawn_tool(max_children_per_turn),
    ]
}

/// The tools of a session.
pub fn session_registry(max_children_per_turn: u32) -> (r: ToolRegistry)
    ensures
        r.tools() == session_tools(max_children_per_turn),
{
    let mut r = ToolRegistry::new();
    let a = tool_info(&FileRead);
    assert(a@ == file_read_tool());
    r.register(a);
    let b = tool_info(&FileEdit);
    assert(b@ == file_edit_tool());
    r.register(b);
    let c = tool_info(&BashExec);
    assert(c@ == bash_exec_tool());
    r.register(c);
    let d = tool_info(&GrepSearch);
    assert(d@ == grep_search_tool());
    r.register(d);
    let e = tool_info(&TodoWrite);
    assert(e@ == todo_write_tool());
    r.register(e);
    let f = tool_info(&SpawnSubagent::new(max_children_per_turn));
    assert(f@ == spawn_tool(max_children_per_turn));
    r.register(f);
    assert(r.tools() =~= session_tools(max_children_per_turn));
    r
}

/// The shell that is configured, where one is.
pub fn shell_of(cfg: &Config) -> (r: Option<ShellCommand>)
    ensures
        match r {
            Some(s) => {
                &&& cfg@.shell.command == Some(s.command@)
                &&& views(s.args@) == (match cfg@.shell.args {
                    Some(a) => a,
                    None => Seq::empty(),
                })
            },
            None => cfg@.shell.command is None,
        },
{
    match &cfg.shell.command {
        None => None,
        Some(command) => {
            let args = match &cfg.shell.args {
                Some(a) => clone_texts(a),
                None => {
                    let none: Vec<String> = Vec::new();
                    assert(views(none@) =~= Seq::empty());
                    none
                },
            };
            Some(ShellCommand { command: command.clone(), args })
        },
    }
}

// ---- the agent ----

/// The limit on context tokens, where compression is on.
pub open spec fn limit_in(c: ConfigView) -> Option<u32> {
    if c.context.enabled {
        Some(c.context.limit)
    } else {
        None
    }
}

/// The limit on context tokens, where compression is on.
pub fn context_limit(cfg: &Config) -> (r: Option<u32>)
    ensures
        r == limit_in(cfg@),
{
    if cfg.context.enabled {
        Some(cfg.context.limit)
    } else {
        None
    }
}

/// The agent of a session, and what it opens children with: the same prompt, rules, tools and
/// limits.
pub fn build_loop(cfg: &Config, system: &str, rules: SecurityRules) -> (r: (
    AgentLoop,
    SubagentRuntime,
))
    ensures
        r.0@ == (AgentView {
            tools: session_tools(cfg@.agent.max_children_per_turn),
            rules: rules.table(),
            sensitive_read: false,
            system: system@,
            history: Seq::empty(),
            max_turns: cfg@.max_turns,
            cache: Some(CacheView { baseline: None, violations: 0, invalidations: 0 }),
            context_limit: limit_in(cfg@),
            pending_summary: None,
            compress_attempted: false,
            state: State::AwaitingInput,
            turns: 0,
            text: None,
            thinking: None,
            calls: Seq::empty(),
        }),
        r.1@ == (RuntimeView {
            base_system: system@,
            rules: rules.table(),
            tools: session_tools(cfg@.agent.max_children_per_turn),
            max_turns: cfg@.max_turns,
            context_limit: limit_in(cfg@),
            max_children_per_turn: cfg@.agent.max_children_per_turn,
            depth: 0,
        }),
{
    let limit = context_limit(cfg);
    let registry = session_registry(cfg.agent.max_children_per_turn);
    let spawner = SubagentRuntime::new(
        system.to_owned(),
        rules.clone(),
        registry.clone(),
        cfg.max_turns,
        limit,
        cfg.agent.max_children_per_turn,
    );
    let agent = AgentLoop {
        registry,
        security: SecurityGuard::new(rules),
        system: system.to_owned(),
        history: Vec::new(),
        max_turns: cfg.max_turns,
        cache_strategy: Some(ImplicitPrefixCacheStrategy::new()),
        context_limit: limit,
        pending_summary: None,
        compress_attempted: false,
        state: State::AwaitingInput,
        turns: 0,
        text: None,
        thinking: None,
        calls: Vec::new(),
    };
    assert(agent@.history =~= Seq::empty());
    assert(agent@.calls =~= Seq::empty());
    (agent, spawner)
}

// ---- line by line ----

/// Takes a line of a session without the full-screen interface: a blank one is passed over; any
/// other is remembered, and asks for what it would ask for there.
pub fn take_line(history: &mut InputHistory, line: &str) -> (r: Option<Submission>)
    ensures
        match r {
            Some(s) => {
                &&& !all_white(line@)
                &&& s@ == submitted(line@)
                &&& final(history).at() == remembered(old(history).at(), line@)
            },
            None => all_white(line@) && final(history).at() == old(history).at(),
        },
{
    if blank(line) {
        return None;
    }
    history.push(line.to_owned());
    Some(submission(line))
}

/// The kind of a project is told by the first of these files that it has: Cargo.toml, package.json,
/// then either of Python's, then go.mod; and it is not known where it has none.
pub proof fn law_first_file_tells_the_kind(f: ProjectFiles)
    ensures
        f.cargo_toml ==> project_kind(f) == "Rust"@,
        !f.cargo_toml && f.package_json ==> project_kind(f) == "Node.js"@,
        !f.cargo_toml && !f.package_json && f.pyproject_toml ==> project_kind(f) == "Python"@,
        !f.cargo_toml && !f.package_json && f.requirements_txt ==> project_kind(f) == "Python"@,
        !f.cargo_toml && !f.package_json && !f.pyproject_toml && !f.requirements_txt && f.go_mod
            ==> project_kind(f) == "Go"@,
        !f.cargo_toml && !f.package_json && !f.pyproject_toml && !f.requirements_txt && !f.go_mod
            ==> project_kind(f) == "未知"@,
{
}

/// A session has six tools. Those that write a file, run a command or open a child change something;
/// the others do not, and may run beside others.
pub proof fn law_tools_of_a_session(cap: u32)
    ensures
        session_tools(cap).len() == 6,
        session_tools(cap)[0].name == "file_read"@ && session_tools(cap)[0].read_only
            && session_tools(cap)[0].parallel_safe,
        session_tools(cap)[1].name == "file_edit"@ && !session_tools(cap)[1].read_only
            && !session_tools(cap)[1].parallel_safe,
        session_tools(cap)[2].name == "bash_exec"@ && !session_tools(cap)[2].read_only
            && !session_tools(cap)[2].parallel_safe,
        session_tools(cap)[3].name == "grep_search"@ && session_tools(cap)[3].read_only
            && session_tools(cap)[3].parallel_safe,
        session_tools(cap)[4].name == "todo_write"@ && session_tools(cap)[4].read_only
            && session_tools(cap)[4].parallel_safe,
        session_tools(cap)[5].name == "spawn_subagent"@ && !session_tools(cap)[5].read_only
            && session_tools(cap)[5].parallel_safe,
{
}

/// A conversation has the configured limit exactly where compression is on.
pub proof fn law_limit_holds_where_it_is_on(c: ConfigView)
    ensures
        c.context.enabled ==> limit_in(c) == Some(c.context.limit),
        !c.context.enabled ==> limit_in(c) is None,
{
}

/// A path is shown without the marks that it begins with, however many, and otherwise as it is.
pub proof fn law_marks_are_not_shown(p: Seq<char>)
    requires
        !occurs_at(p, "\\\\?\\"@, 0),
    ensures
        without_marks(p) == p,
        without_marks("\\\\?\\"@ + p) == p,
{
    let m = "\\\\?\\"@;
    reveal_strlit("\\\\?\\");
    let q = m + p;
    assert(q.subrange(0, m.len() as int) =~= m);
    assert(q.skip(m.len() as int) =~= p);
    reveal_with_fuel(without_marks, 2);
}

} // verus!
