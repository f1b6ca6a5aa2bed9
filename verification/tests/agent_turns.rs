use lex_code::agent::subagent::{
    child_task_text, compose_subagent_system, effective_context_limit, nested_spawner_allowed,
    subagent_system_suffix, Child, SpawnBudget, SubagentRuntime,
};
use lex_code::agent::{
    result_info, AgentLoop, State, ToolCall, TurnStep, COMPACTED, INTERRUPTED, NOTHING_TO_COMPACT,
};
use lex_code::config::{Config, SecurityConfig};
use lex_code::context::compress::summary_of;
use lex_code::error::LexError;
use lex_code::json::Json;
use lex_code::message::{Block, Message, Role};
use lex_code::provider::cache::ImplicitPrefixCacheStrategy;
use lex_code::provider::{ProviderEvent, RequestContext};
use lex_code::security::rules::{Decision, SecurityGuard, SecurityRules};
use lex_code::security::{after_confirm, after_run, note_read, open_call, GateStep};
use lex_code::session::{
    build_loop, context_limit, current_model, detect_project_type, display_path, prompt_vars,
    service_of, session_registry, shell_of, take_line, ProjectFiles, Service,
};
use lex_code::tools::file_read::FileRead;
use lex_code::tools::spawn_subagent::SpawnSubagent;
use lex_code::tools::{tool_info, SubagentRequest, ToolInfo, ToolRegistry};
use lex_code::tui::run::Submission;
use lex_code::ui::input::InputHistory;

fn json(s: &str) -> Json {
    match Json::parse(s) {
        Ok(j) => j,
        Err(e) => panic!("{e}"),
    }
}

fn tool(name: &str, read_only: bool) -> ToolInfo {
    ToolInfo {
        name: name.to_string(),
        description: "d".to_string(),
        input_schema: json(r#"{"type":"object"}"#),
        read_only,
        parallel_safe: read_only,
    }
}

fn agent(tools: Vec<ToolInfo>, max_turns: u32) -> AgentLoop {
    let mut registry = ToolRegistry::new();
    for t in tools {
        registry.register(t);
    }
    AgentLoop {
        registry,
        security: SecurityGuard::new(SecurityRules::defaults()),
        system: "sys".to_string(),
        history: vec![],
        max_turns,
        cache_strategy: Some(ImplicitPrefixCacheStrategy::new()),
        context_limit: None,
        pending_summary: None,
        compress_attempted: false,
        state: State::AwaitingInput,
        turns: 0,
        text: None,
        thinking: None,
        calls: vec![],
    }
}

fn call(id: &str, name: &str, input: &str) -> Vec<ProviderEvent> {
    vec![
        ProviderEvent::ToolUseStart { id: id.to_string(), name: name.to_string() },
        ProviderEvent::ToolUseComplete { id: id.to_string(), name: name.to_string(), input: json(input) },
    ]
}

fn say(t: &str) -> Vec<ProviderEvent> {
    vec![ProviderEvent::TextDelta(t.to_string())]
}

fn run_call(a: &mut AgentLoop, c: &ToolCall, answer: bool, outcome: &str) -> Block {
    let step = match open_call(&a.registry, &a.security, &c.id, &c.name, &c.input) {
        GateStep::Ask(_) => after_confirm(&c.id, Ok(answer)),
        other => other,
    };
    match step {
        GateStep::Answer(b) => b,
        GateStep::Run => {
            note_read(&mut a.security, &c.name, &c.input);
            after_run(&c.id, Ok(outcome.to_string()))
        }
        GateStep::Ask(_) => panic!("asked twice"),
    }
}

/// A turn with scripted replies; every tool gives `outcome`.
fn run_turn(
    a: &mut AgentLoop,
    input: &str,
    replies: Vec<Vec<ProviderEvent>>,
    answer: bool,
    outcome: &str,
) -> Result<(String, Vec<RequestContext>, Vec<bool>), LexError> {
    let mut requests = vec![];
    let mut at_once_seen = vec![];
    a.start_turn(input);
    for reply in replies {
        requests.push(a.next_request()?);
        for e in &reply {
            a.take_event(e);
        }
        match a.end_reply() {
            TurnStep::Reply(t) => return Ok((t, requests, at_once_seen)),
            TurnStep::Run { calls, at_once } => {
                at_once_seen.push(at_once);
                let results: Vec<Block> = calls.iter().map(|c| run_call(a, c, answer, outcome)).collect();
                a.take_results(&calls, &results);
            }
        }
    }
    a.next_request().map(|_| (String::new(), requests, at_once_seen))
}

fn result(b: &Block) -> (String, String, bool) {
    match b {
        Block::ToolResult { tool_use_id, content, is_error } => {
            (tool_use_id.clone(), content.clone(), *is_error)
        }
        other => panic!("{other:?}"),
    }
}

fn first_text(m: &Message) -> String {
    match &m.content[0] {
        Block::Text { text } => text.clone(),
        other => panic!("{other:?}"),
    }
}

// ---- turns ----

#[test]
fn two_turn_loop_reads_then_answers() {
    let mut a = agent(vec![tool("file_read", true)], 5);
    let replies = vec![call("t1", "file_read", r#"{"path":"a.txt"}"#), say("做完了")];
    let (text, _, _) = run_turn(&mut a, "读一下 a.txt", replies, true, "文件内容X").unwrap();
    assert_eq!(text, "做完了");
    assert_eq!(a.history.len(), 4);
    assert_eq!(a.history[0], Message::user_text("读一下 a.txt"));
    assert!(matches!(&a.history[1].content[0], Block::ToolUse { id, .. } if id == "t1"));
    assert_eq!(a.history[2].role, Role::User);
    assert_eq!(a.history[2].content.len(), 1);
    assert_eq!(result(&a.history[2].content[0]), ("t1".to_string(), "文件内容X".to_string(), false));
    assert_eq!(first_text(&a.history[3]), "做完了");
    assert_eq!(a.state, State::AwaitingInput);
}

#[test]
fn denied_tool_result_feeds_back_and_model_can_finish() {
    let mut a = agent(vec![tool("file_edit", false)], 5);
    let replies = vec![call("t1", "file_edit", r#"{"path":"a.txt"}"#), say("好的,不写了")];
    let (text, _, _) = run_turn(&mut a, "改 a.txt", replies, false, "已写入").unwrap();
    assert_eq!(text, "好的,不写了");
    let (_, content, is_error) = result(&a.history[2].content[0]);
    assert!(is_error && content.contains("拒绝"), "{content}");
}

#[test]
fn max_turns_exceeded_is_error() {
    let mut a = agent(vec![tool("file_read", true)], 3);
    let replies = (0..10).map(|_| call("t1", "file_read", r#"{"path":"a.txt"}"#)).collect();
    let err = run_turn(&mut a, "x", replies, true, "r").unwrap_err();
    assert!(matches!(&err, LexError::Provider(m) if m.contains("3")), "{err:?}");
}

#[test]
fn readonly_tools_run_concurrently() {
    let mut a = agent(vec![tool("slow_read", true)], 5);
    let two = [call("t1", "slow_read", r#"{"p":"a"}"#), call("t2", "slow_read", r#"{"p":"b"}"#)].concat();
    let (text, _, at_once) = run_turn(&mut a, "并发读", vec![two, say("都读完了")], true, "slow_read-done").unwrap();
    assert_eq!(text, "都读完了");
    assert_eq!(at_once, vec![true]);
    assert_eq!(result(&a.history[2].content[0]).0, "t1");
    assert_eq!(result(&a.history[2].content[1]).0, "t2");
}

#[test]
fn mixed_batch_runs_serially() {
    let mut a = agent(vec![tool("slow_read", true), tool("slow_write", false)], 5);
    let two = [call("t1", "slow_read", r#"{"p":"a"}"#), call("t2", "slow_write", r#"{"p":"b"}"#)].concat();
    let (_, _, at_once) = run_turn(&mut a, "混合批次", vec![two, say("完成")], true, "r").unwrap();
    assert_eq!(at_once, vec![false]);
}

#[test]
fn forbidden_command_is_hard_blocked_without_confirm() {
    let mut a = agent(vec![tool("bash_exec", false)], 5);
    let replies = vec![
        call("t1", "bash_exec", r#"{"command": "rm -rf .git"}"#),
        say("已拦截,我不会执行该操作"),
    ];
    let (text, _, _) = run_turn(&mut a, "删掉 .git", replies, true, "ran").unwrap();
    assert_eq!(text, "已拦截,我不会执行该操作");
    let (_, content, is_error) = result(&a.history[2].content[0]);
    assert!(is_error && content.contains("硬性拦截"), "{content}");
}

#[test]
fn a_reply_keeps_thinking_text_and_calls_in_order() {
    let mut a = agent(vec![tool("file_read", true)], 5);
    a.start_turn("x");
    a.next_request().unwrap();
    for e in [
        ProviderEvent::TextDelta("一".to_string()),
        ProviderEvent::ThinkingDelta("想".to_string()),
        ProviderEvent::TextDelta("二".to_string()),
    ] {
        a.take_event(&e);
    }
    for e in call("t1", "file_read", "{}") {
        a.take_event(&e);
    }
    assert!(matches!(a.end_reply(), TurnStep::Run { .. }));
    let blocks = &a.history[1].content;
    assert!(matches!(&blocks[0], Block::Thinking { reasoning_content } if reasoning_content == "想"));
    assert!(matches!(&blocks[1], Block::Text { text } if text == "一二"));
    assert!(matches!(&blocks[2], Block::ToolUse { .. }));
    assert_eq!(a.state, State::ExecutingTools);
}

#[test]
fn first_line_of_a_result_is_told() {
    let b = after_run("t1", Ok("第一行\n第二行".to_string()));
    let info = result_info("file_read", &b).unwrap();
    assert_eq!((info.tool_name.as_str(), info.first_line.as_str(), info.is_error), ("file_read", "第一行", false));
    assert!(result_info("x", &Block::Text { text: String::new() }).is_none());
}

// ---- an interruption ----

#[test]
fn interrupted_calls_are_answered() {
    let mut a = agent(vec![tool("file_read", true)], 5);
    a.start_turn("x");
    a.next_request().unwrap();
    for e in [call("t1", "file_read", "{}"), call("t2", "file_read", "{}")].concat() {
        a.take_event(&e);
    }
    a.end_reply();
    a.recover_interrupt();
    assert_eq!(a.history.len(), 4);
    assert_eq!(result(&a.history[2].content[0]), ("t1".to_string(), INTERRUPTED.to_string(), true));
    assert_eq!(result(&a.history[2].content[1]).0, "t2");
    assert_eq!(a.history[3].role, Role::Assistant);
    let (text, requests, _) = run_turn(&mut a, "继续", vec![say("好")], true, "").unwrap();
    assert_eq!(text, "好");
    for (i, m) in requests[0].messages.iter().enumerate() {
        let role = if i % 2 == 0 { Role::User } else { Role::Assistant };
        assert_eq!(m.role, role);
    }
}

#[test]
fn interrupted_reply_is_closed() {
    let mut a = agent(vec![], 5);
    a.start_turn("x");
    a.next_request().unwrap();
    a.take_event(&ProviderEvent::TextDelta("半".to_string()));
    a.recover_interrupt();
    assert_eq!(a.history.len(), 2);
    assert_eq!(first_text(&a.history[1]), INTERRUPTED);
    assert!(a.text.is_none());
    a.recover_interrupt();
    assert_eq!(a.history.len(), 2);
}

// ---- compression ----

fn seeded_history() -> Vec<Message> {
    let big = "长".repeat(200);
    vec![
        Message::user_text(&big),
        Message::assistant(vec![Block::Text { text: big.clone() }]),
        Message::user_text("任务二:继续"),
        Message::assistant(vec![Block::Text { text: "好的".to_string() }]),
    ]
}

fn invalidations(a: &AgentLoop) -> u64 {
    a.cache_strategy.as_ref().map(|c| c.invalidations()).unwrap_or(0)
}

fn violations(a: &AgentLoop) -> u64 {
    a.cache_strategy.as_ref().map(|c| c.violations()).unwrap_or(0)
}

#[test]
fn compression_triggers_once_and_merges_into_next_user_message() {
    let mut a = agent(vec![], 5);
    a.history = seeded_history();
    a.context_limit = Some(8);
    let (cut, ctx) = a.compression_request().unwrap();
    assert!(ctx.tools.is_empty());
    assert_eq!(ctx.messages.len(), 1);
    let asked = first_text(&ctx.messages[0]);
    assert!(!asked.contains("任务二"));
    assert!(asked.contains("长长长"));
    a.finish_compression(cut, summary_of(&vec!["决策:方案A;文件:src/a.rs".to_string()]));

    let (text, requests, _) = run_turn(&mut a, "新任务:收尾", vec![say("本轮完成")], true, "").unwrap();
    assert_eq!(text, "本轮完成");
    let merged = requests[0].messages.iter().map(first_text).find(|t| t.contains("[前期对话摘要]"));
    let merged = merged.unwrap();
    assert!(merged.contains("方案A"));
    assert!(merged.contains("[本轮任务]\n新任务:收尾"));
    assert_eq!(invalidations(&a), 1);

    assert!(a.compression_request().is_none());
    run_turn(&mut a, "再来一轮", vec![say("占位")], true, "").unwrap();
    let n = a.history.iter().filter(|m| first_text(m).contains("[前期对话摘要]")).count();
    assert_eq!(n, 1);
    assert_eq!(invalidations(&a), 1);
}

#[test]
fn failed_compression_leaves_the_history() {
    let mut a = agent(vec![], 5);
    a.history = seeded_history();
    a.context_limit = Some(8);
    let (cut, _) = a.compression_request().unwrap();
    a.finish_compression(cut, Err(LexError::Provider("x".to_string())));
    assert_eq!(a.history, seeded_history());
    assert!(a.compression_request().is_some());
    assert!(a.compact_request().is_some());
}

#[test]
fn the_user_may_ask_for_compression() {
    let mut a = agent(vec![], 5);
    assert!(a.compact_request().is_none());
    a.history = seeded_history();
    let (cut, _) = a.compact_request().unwrap();
    let failed = a.finish_compact(cut, Err(LexError::Provider("x".to_string())));
    assert!(matches!(failed, Err(LexError::Provider(m)) if m == "x"));
    assert_eq!(a.history, seeded_history());
    let told = a.finish_compact(cut, Ok("摘要".to_string())).unwrap();
    assert_eq!(told, COMPACTED);
    assert_ne!(COMPACTED, NOTHING_TO_COMPACT);
    assert_eq!(a.history.len(), seeded_history().len() - cut);
    assert_eq!(a.pending_summary.as_deref(), Some("摘要"));
}

#[test]
fn no_compression_below_threshold() {
    let mut a = agent(vec![], 5);
    a.history = seeded_history();
    assert!(a.compression_request().is_none());
    let (text, _, _) = run_turn(&mut a, "任务", vec![say("直接回答")], true, "").unwrap();
    assert_eq!(text, "直接回答");
    assert_eq!(invalidations(&a), 0);
    assert_eq!(a.history[0], Message::user_text(&"长".repeat(200)));
    a.context_limit = Some(64_000);
    assert!(a.compression_request().is_none());
}

#[test]
fn cache_strategy_receives_prepare_across_turns() {
    let mut a = agent(vec![], 5);
    a.history = seeded_history();
    run_turn(&mut a, "任务一", vec![say("ok")], true, "").unwrap();
    run_turn(&mut a, "任务二", vec![say("ok2")], true, "").unwrap();
    assert_eq!(violations(&a), 0);
    assert_eq!(invalidations(&a), 0);
}

// ---- children ----

#[test]
fn composed_system_keeps_base_as_byte_prefix() {
    let base = "# 身份\n你是编程 agent。\n\n# 核心原则\n安全第一。";
    let suffix = subagent_system_suffix("排查测试", &vec!["file_read".to_string()]);
    let composed = compose_subagent_system(base, &suffix);
    assert!(composed.starts_with(base));
    assert!(composed.contains("file_read"));
    assert!(composed.contains("子任务摘要"));
    assert_eq!(
        subagent_system_suffix("t", &vec!["a".to_string()]),
        subagent_system_suffix("t", &vec!["a".to_string()])
    );
}

#[test]
fn nested_depth_boundary() {
    assert!(nested_spawner_allowed(0, true));
    assert!(!nested_spawner_allowed(1, true));
    assert!(!nested_spawner_allowed(2, true));
    assert!(!nested_spawner_allowed(0, false));
}

#[test]
fn child_task_text_merges_context_fragment() {
    let mut req = SubagentRequest {
        task: "排查失败".to_string(),
        allowed_tools: vec!["file_read".to_string()],
        context: Some("模块在 src/foo".to_string()),
        context_budget: None,
        allow_nested: false,
    };
    let text = child_task_text(&req);
    assert!(text.contains("[父级上下文]"));
    assert!(text.contains("模块在 src/foo"));
    assert!(text.contains("排查失败"));
    req.context = None;
    assert_eq!(child_task_text(&req), "排查失败");
}

#[test]
fn context_budget_is_normalized_and_clamped_to_parent() {
    assert_eq!(effective_context_limit(Some(16_000), None), Some(16_000));
    assert_eq!(effective_context_limit(None, None), None);
    assert_eq!(effective_context_limit(Some(0), Some(64_000)), Some(64_000));
    assert_eq!(effective_context_limit(Some(0), None), None);
    assert_eq!(effective_context_limit(None, Some(64_000)), Some(64_000));
    assert_eq!(effective_context_limit(Some(999_999), Some(64_000)), Some(64_000));
    assert_eq!(effective_context_limit(Some(8_000), Some(64_000)), Some(8_000));
}

fn request(task: &str, tools: &[&str], allow_nested: bool) -> SubagentRequest {
    SubagentRequest {
        task: task.to_string(),
        allowed_tools: tools.iter().map(|s| s.to_string()).collect(),
        context: None,
        context_budget: None,
        allow_nested,
    }
}

fn runtime(tools: Vec<ToolInfo>, rules: SecurityRules) -> SubagentRuntime {
    let mut registry = ToolRegistry::new();
    for t in tools {
        registry.register(t);
    }
    SubagentRuntime::new("主提示词前缀".to_string(), rules, registry, 10, Some(64_000), 4)
}

fn usual_tools() -> Vec<ToolInfo> {
    vec![tool_info(&FileRead), tool_info(&SpawnSubagent::new(4))]
}

fn open(rt: &SubagentRuntime, req: &SubagentRequest) -> Result<Child, LexError> {
    rt.open_child(req, &mut SpawnBudget::new(4))
}

#[test]
fn spawn_returns_child_summary_only() {
    let rt = runtime(usual_tools(), SecurityRules::defaults());
    let mut child = open(&rt, &request("排查", &["file_read"], false)).unwrap();
    assert!(child.agent.system.starts_with("主提示词前缀"));
    assert_eq!(child.agent.registry.names(), vec!["file_read".to_string()]);
    assert_eq!(child.task, "排查");
    assert!(child.spawner.is_none());
    let reply = "## 子任务摘要\n- **做了什么**:读了文件";
    let task = child.task.clone();
    let (summary, _, _) = run_turn(&mut child.agent, &task, vec![say(reply)], true, "").unwrap();
    assert_eq!(summary, reply);
}

#[test]
fn unknown_allowed_tool_is_rejected() {
    let rt = runtime(vec![], SecurityRules::defaults());
    let err = open(&rt, &request("t", &["ghost"], false)).unwrap_err();
    assert!(err.to_string().contains("未知工具"));
}

#[test]
fn nested_chain_reaches_two_layers_and_grandchild_cannot_spawn() {
    let rt = runtime(usual_tools(), SecurityRules::defaults());
    let child = open(&rt, &request("子任务", &["file_read"], true)).unwrap();
    assert!(child.agent.registry.get("spawn_subagent").is_some());
    let grand = open(&child.spawner.unwrap(), &request("孙任务", &["file_read"], true)).unwrap();
    assert!(grand.agent.registry.get("spawn_subagent").is_none());
    assert!(grand.spawner.is_none());
}

#[test]
fn depth_cap_enforced_defensively() {
    let mut rt = runtime(vec![tool_info(&FileRead)], SecurityRules::defaults());
    rt.depth = 2;
    let err = open(&rt, &request("t", &["file_read"], true)).unwrap_err();
    assert!(err.to_string().contains("上限"), "{err:?}");
    assert!(!nested_spawner_allowed(1, true));
    assert!(nested_spawner_allowed(0, true));
}

#[test]
fn run_turn_signals_spawner_begin_turn() {
    let rt = runtime(usual_tools(), SecurityRules::defaults());
    let mut budget = SpawnBudget::new(1);
    let req = request("t", &["file_read"], false);
    assert!(rt.open_child(&req, &mut budget).is_ok());
    assert!(rt.open_child(&req, &mut budget).is_err());
    budget.begin_turn();
    assert!(rt.open_child(&req, &mut budget).is_ok());
    assert!(rt.open_child(&req, &mut SpawnBudget::new(0)).is_err());
}

#[test]
fn forbidden_rule_still_blocks_inside_child_agent() {
    let rules = SecurityRules::build(&SecurityConfig {
        forbidden: vec!["LEXCHILD_FORBIDDEN_PROBE".to_string()],
        ..SecurityConfig::default()
    })
    .unwrap();
    let cmd = "echo LEXCHILD_FORBIDDEN_PROBE > probe.txt";
    assert!(matches!(rules.decide(cmd, false, false), Decision::Forbidden { .. }));
    let rt = runtime(vec![tool("bash_exec", false)], rules);
    let mut child = open(&rt, &request("执行标记命令", &["bash_exec"], false)).unwrap();
    let input = format!(r#"{{"command":"{cmd}"}}"#);
    let replies = vec![call("c1", "bash_exec", &input), say("被安全规则拦截")];
    run_turn(&mut child.agent, "执行标记命令", replies, true, "ran").unwrap();
    let (_, content, is_error) = result(&child.agent.history[2].content[0]);
    assert!(is_error && content.contains("Forbidden"), "{content}");
}

#[test]
fn main_loop_delegates_and_keeps_only_summary() {
    let mut a = agent(usual_tools(), 10);
    let summary = "## 子任务摘要\n- **关键结论**:断言过期";
    let replies = vec![
        call("t1", "spawn_subagent", r#"{"task":"排查测试失败原因","allowed_tools":["file_read"]}"#),
        say("子任务已完成,结论:断言过期。"),
    ];
    let (text, _, _) = run_turn(&mut a, "排查测试失败原因", replies, true, summary).unwrap();
    assert!(text.contains("断言过期"));
    assert_eq!(result(&a.history[2].content[0]), ("t1".to_string(), summary.to_string(), false));
}

// ---- a session ----

#[test]
fn project_kinds_are_told_by_their_files() {
    let none = ProjectFiles { cargo_toml: false, package_json: false, pyproject_toml: false, requirements_txt: false, go_mod: false };
    assert_eq!(detect_project_type(none), "未知");
    assert_eq!(detect_project_type(ProjectFiles { cargo_toml: true, go_mod: true, ..none }), "Rust");
    assert_eq!(detect_project_type(ProjectFiles { package_json: true, ..none }), "Node.js");
    assert_eq!(detect_project_type(ProjectFiles { requirements_txt: true, ..none }), "Python");
    assert_eq!(detect_project_type(ProjectFiles { pyproject_toml: true, ..none }), "Python");
    assert_eq!(detect_project_type(ProjectFiles { go_mod: true, ..none }), "Go");
    assert_eq!(display_path(r"\\?\C:\x"), r"C:\x");
    assert_eq!(display_path("/x"), "/x");
    let vars = prompt_vars("/w", "linux", "Rust");
    assert!(vars.contains(&("CWD", "/w".to_string())));
    assert!(vars.contains(&("TOOL_TODO", "todo_write".to_string())));
}

#[test]
fn a_session_is_built_from_its_configuration() {
    let mut cfg = Config::default();
    cfg.anthropic.model = "a".to_string();
    cfg.openai.model = "o".to_string();
    assert_eq!(current_model(&cfg), "a");
    assert!(matches!(service_of(&cfg, "k"), Service::Anthropic(p) if p.api_key == "k" && p.max_tokens == 8192));
    cfg.provider = "openai".to_string();
    assert_eq!(current_model(&cfg), "o");
    assert!(matches!(service_of(&cfg, "k"), Service::OpenAi(p) if p.model == "o"));
    assert_eq!(context_limit(&cfg), Some(64_000));
    cfg.context.enabled = false;
    assert_eq!(context_limit(&cfg), None);
    assert!(shell_of(&cfg).is_none());
    cfg.shell.command = Some("bash".to_string());
    assert_eq!(shell_of(&cfg).unwrap().command, "bash");
    let names = session_registry(4).names();
    assert_eq!(
        names,
        ["file_read", "file_edit", "bash_exec", "grep_search", "todo_write", "spawn_subagent"]
            .map(|s| s.to_string())
            .to_vec()
    );
    let (a, rt) = build_loop(&cfg, "系统", SecurityRules::defaults());
    assert_eq!(a.system, "系统");
    assert_eq!(a.max_turns, 50);
    assert_eq!((rt.depth, rt.max_children_per_turn), (0, 4));
}

#[test]
fn lines_ask_for_turns_and_commands() {
    let mut h = InputHistory::default();
    assert!(take_line(&mut h, "  ").is_none());
    assert_eq!(h.prev(""), None);
    assert!(matches!(take_line(&mut h, "修复测试"), Some(Submission::Turn(t)) if t == "修复测试"));
    assert_eq!(h.prev(""), Some("修复测试".to_string()));
    assert!(matches!(take_line(&mut h, "/settings"), Some(Submission::Settings)));
    assert!(matches!(take_line(&mut h, "/compact"), Some(Submission::Compact)));
    assert!(matches!(take_line(&mut h, "/nope"), Some(Submission::Unknown)));
    assert!(matches!(take_line(&mut h, "/init"), Some(Submission::Turn(t)) if t.contains("AGENTS.md")));
}
