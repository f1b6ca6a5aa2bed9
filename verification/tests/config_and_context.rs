use lex_code::config::{env_option, resolve_api_key, AnthropicConfig, Config, OpenAiConfig, SecurityConfig};
use lex_code::context::agents_md::{assemble_system_prompt, load_agents_md, INJECTION_HEADER};
use lex_code::context::compress::{
    estimate_tokens, find_cut_index, render_history_text, summary_of, summary_request, truncate,
    BLOCK_TEXT_LIMIT, SUMMARIZER_SYSTEM,
};
use lex_code::error::LexError;
use lex_code::json::Json;
use lex_code::message::{Block, Message, Role, Usage};
use lex_code::prompt::{choose_prompt, render_template, PromptPlace};

fn json(s: &str) -> Json {
    match Json::parse(s) {
        Ok(j) => j,
        Err(e) => panic!("{e}"),
    }
}

fn fault_of(r: Result<Config, LexError>) -> String {
    match r {
        Ok(_) => panic!("a fault was expected"),
        Err(e) => e.to_string(),
    }
}

fn anthropic(base_url: &str, model: &str) -> Config {
    Config {
        anthropic: AnthropicConfig {
            base_url: base_url.to_string(),
            model: model.to_string(),
            ..AnthropicConfig::default()
        },
        ..Config::default()
    }
}

fn openai(base_url: &str, model: &str) -> Config {
    Config {
        provider: "openai".to_string(),
        openai: OpenAiConfig {
            base_url: base_url.to_string(),
            model: model.to_string(),
            ..OpenAiConfig::default()
        },
        ..Config::default()
    }
}

// ---- configuration ----

#[test]
fn missing_base_url_is_config_error() {
    let err = fault_of(Config::load(None, None, None));
    assert!(err.contains("base_url"), "{err}");
}

#[test]
fn toml_provides_base_url_and_model() {
    let cfg = Config::load(Some(anthropic("http://127.0.0.1:9", "model-test")), None, None).unwrap();
    assert_eq!(cfg.provider, "anthropic");
    assert_eq!(cfg.anthropic.model, "model-test");
    assert_eq!(cfg.anthropic.max_tokens, 8192);
    assert_eq!(cfg.max_turns, 50);
}

#[test]
fn env_overrides_toml_base_url() {
    let file = anthropic("http://127.0.0.1:9", "m");
    let cfg = Config::load(Some(file), Some("http://127.0.0.1:8"), None).unwrap();
    assert_eq!(cfg.anthropic.base_url, "http://127.0.0.1:8");
}

#[test]
fn blank_environment_overrides_nothing() {
    let file = anthropic("http://127.0.0.1:9", "m");
    let cfg = Config::load(Some(file), Some("   "), Some("")).unwrap();
    assert_eq!(cfg.anthropic.base_url, "http://127.0.0.1:9");
    assert_eq!(env_option(Some("  ")), None);
    assert_eq!(env_option(None), None);
    assert_eq!(env_option(Some("x")), Some("x".to_string()));
}

#[test]
fn openai_provider_requires_its_own_base_url_and_model() {
    let err = fault_of(Config::load(Some(openai("", "")), None, None));
    assert!(err.contains("base_url"), "{err}");
    let err = fault_of(Config::load(Some(openai("http://127.0.0.1:7", "")), None, None));
    assert!(err.contains("model"), "{err}");

    let cfg = Config::load(Some(openai("http://127.0.0.1:7", "deepseek-test")), None, None).unwrap();
    assert_eq!(cfg.openai.model, "deepseek-test");
    assert_eq!(cfg.openai.max_tokens, None);
    assert_eq!(cfg.openai.thinking, None);
    assert_eq!(cfg.anthropic.base_url, "");
}

#[test]
fn openai_thinking_params_are_parsed_and_validated() {
    let mut good = openai("http://127.0.0.1:7", "m");
    good.openai.thinking = Some("enabled".to_string());
    good.openai.reasoning_effort = Some("high".to_string());
    let cfg = Config::load(Some(good), None, None).unwrap();
    assert_eq!(cfg.openai.thinking.as_deref(), Some("enabled"));
    assert_eq!(cfg.openai.reasoning_effort.as_deref(), Some("high"));

    let mut bad = openai("http://127.0.0.1:7", "m");
    bad.openai.thinking = Some("always".to_string());
    let err = fault_of(Config::load(Some(bad), None, None));
    assert!(err.contains("thinking"), "{err}");

    let mut bad = openai("http://127.0.0.1:7", "m");
    bad.openai.reasoning_effort = Some("ultra".to_string());
    let err = fault_of(Config::load(Some(bad), None, None));
    assert!(err.contains("reasoning_effort"), "{err}");
}

#[test]
fn user_id_is_checked() {
    let mut good = openai("http://127.0.0.1:7", "m");
    good.openai.user_id = Some("team-1_A".to_string());
    assert!(good.fault().is_none());

    let mut bad = openai("http://127.0.0.1:7", "m");
    bad.openai.user_id = Some("name@example".to_string());
    assert!(bad.fault().unwrap().contains("user_id"));

    let mut long = openai("http://127.0.0.1:7", "m");
    long.openai.user_id = Some("a".repeat(513));
    assert!(long.fault().is_some());
    long.openai.user_id = Some("a".repeat(512));
    assert!(long.fault().is_none());
}

#[test]
fn env_overrides_openai_base_url() {
    let file = openai("http://127.0.0.1:7", "m");
    let cfg = Config::load(Some(file), None, Some("http://127.0.0.1:6")).unwrap();
    assert_eq!(cfg.openai.base_url, "http://127.0.0.1:6");
}

#[test]
fn unknown_provider_is_rejected() {
    let file = Config { provider: "gemini".to_string(), ..Config::default() };
    let err = fault_of(Config::load(Some(file), None, None));
    assert!(err.contains("provider"), "{err}");
}

#[test]
fn api_key_env_per_provider() {
    assert_eq!(Config::api_key_env("anthropic"), "LEX_ANTHROPIC_API_KEY");
    assert_eq!(Config::api_key_env("openai"), "LEX_OPENAI_API_KEY");
}

#[test]
fn api_key_comes_from_the_environment() {
    assert_eq!(resolve_api_key("openai", Some("key")).unwrap(), "key");
    let err = resolve_api_key("openai", None).unwrap_err();
    assert!(matches!(err, LexError::Config(_)));
    assert!(err.to_string().contains("LEX_OPENAI_API_KEY"));
    assert!(resolve_api_key("anthropic", Some(" ")).is_err());
}

#[test]
fn defaults_are_the_documented_ones() {
    let cfg = Config::default();
    assert_eq!(cfg.provider, "anthropic");
    assert_eq!(cfg.context.limit, 64000);
    assert!(cfg.context.enabled);
    assert_eq!(cfg.agent.max_children_per_turn, 4);
    assert!(cfg.security.forbidden.is_empty());
    let s = SecurityConfig::default();
    assert!(s.confirm.is_empty() && s.auto.is_empty());
}

// ---- the project's instructions ----

#[test]
fn loads_agents_md_from_cwd() {
    let md = load_agents_md(Some("# 指引\n用中文回复\n")).unwrap();
    assert!(md.contains("用中文回复"));
}

#[test]
fn missing_or_empty_agents_md_is_none() {
    assert!(load_agents_md(None).is_none());
    assert!(load_agents_md(Some("   \n")).is_none());
}

#[test]
fn assemble_appends_after_base_byte_identical_prefix() {
    let base = "系统提示词";
    let out = assemble_system_prompt(base, Some("指引内容"));
    assert!(out.starts_with(base));
    assert!(out.contains(INJECTION_HEADER));
    assert!(out.ends_with("指引内容"));
    assert_eq!(assemble_system_prompt(base, None), base);
}

// ---- compression ----

#[test]
fn estimate_is_chars_over_four() {
    assert_eq!(estimate_tokens(&[Message::user_text("一二三四五六七八")]), 2);
    assert_eq!(estimate_tokens(&[]), 0);
}

#[test]
fn cut_is_last_user_turn_start() {
    let history = vec![
        Message::user_text("任务一"),
        Message::assistant(vec![Block::Text { text: "答".to_string() }]),
        Message::user_text("任务二"),
        Message::assistant(vec![Block::ToolUse {
            id: "t".to_string(),
            name: "file_read".to_string(),
            input: json("{}"),
        }]),
        Message::tool_results(vec![("t", "内容".to_string(), false)]),
        Message::assistant(vec![Block::Text { text: "完成".to_string() }]),
    ];
    assert_eq!(find_cut_index(&history), Some(2));
    assert_eq!(find_cut_index(&[Message::user_text("x")]), None);
}

#[test]
fn render_skips_thinking_and_labels_roles() {
    let history = vec![
        Message::user_text("你好"),
        Message::assistant(vec![
            Block::Thinking { reasoning_content: "内部思考".to_string() },
            Block::ToolUse {
                id: "t".to_string(),
                name: "grep_search".to_string(),
                input: json(r#"{"pattern":"x"}"#),
            },
        ]),
        Message::tool_results(vec![("t", "命中".to_string(), false)]),
    ];
    let text = render_history_text(&history);
    assert!(text.contains("## 用户"));
    assert!(text.contains("## 助手"));
    assert!(text.contains("[调用工具 grep_search]"));
    assert!(text.contains("[工具结果] 命中"));
    assert!(!text.contains("内部思考"));
}

#[test]
fn truncate_respects_char_boundary() {
    let long = "汉".repeat(BLOCK_TEXT_LIMIT + 100);
    let out = truncate(&long);
    assert!(out.ends_with("…(截断)"));
    assert!(out.chars().count() <= BLOCK_TEXT_LIMIT + 8);
    assert_eq!(truncate("短"), "短");
}

#[test]
fn summary_is_asked_of_the_rendered_history() {
    let early = [Message::user_text("任务一")];
    let ctx = summary_request(&early);
    assert_eq!(ctx.system, SUMMARIZER_SYSTEM);
    assert!(ctx.tools.is_empty());
    assert_eq!(ctx.messages.len(), 1);
    match &ctx.messages[0].content[0] {
        Block::Text { text } => assert!(text.contains("任务一")),
        other => panic!("{other:?}"),
    }
    assert_eq!(summary_of(&vec!["摘".to_string(), "要".to_string()]).unwrap(), "摘要");
    assert!(summary_of(&vec![" \n".to_string()]).is_err());
}

// ---- errors and messages ----

#[test]
fn config_error_displays_chinese_prefix() {
    let e = LexError::Config("缺少 base_url".to_string());
    assert_eq!(e.to_string(), "配置错误: 缺少 base_url");
}

#[test]
fn every_error_names_its_kind() {
    let m = || "m".to_string();
    assert_eq!(LexError::Io(m()).to_string(), "IO 错误: m");
    assert_eq!(LexError::Http(m()).to_string(), "网络错误: m");
    assert_eq!(LexError::Json(m()).to_string(), "JSON 错误: m");
    assert_eq!(LexError::Provider(m()).to_string(), "Provider 协议错误: m");
    assert_eq!(LexError::Tool(m()).to_string(), "工具执行失败: m");
    assert_eq!(LexError::PermissionDenied(m()).to_string(), "权限被拒绝: m");
}

#[test]
fn tool_use_block_serializes_tagged() {
    let b = Block::ToolUse {
        id: "t1".to_string(),
        name: "file_read".to_string(),
        input: json(r#"{"path":"a.rs"}"#),
    };
    let v = b.to_json();
    assert_eq!(v.text_of("type"), Some("tool_use"));
    assert_eq!(v.text_of("name"), Some("file_read"));
    assert_eq!(
        v.to_text(),
        r#"{"type":"tool_use","id":"t1","name":"file_read","input":{"path":"a.rs"}}"#
    );
}

#[test]
fn message_field_order_is_role_then_content() {
    let s = Message::user_text("hi").to_json().to_text();
    assert!(s.starts_with(r#"{"role":"user","content":"#), "{s}");
}

#[test]
fn tool_results_groups_multiple_blocks() {
    let m = Message::tool_results(vec![
        ("t1", "ok".to_string(), false),
        ("t2", "bad".to_string(), true),
    ]);
    assert_eq!(m.role, Role::User);
    assert_eq!(m.content.len(), 2);
    match &m.content[1] {
        Block::ToolResult { tool_use_id, is_error, .. } => {
            assert_eq!(tool_use_id, "t2");
            assert!(is_error);
        }
        other => panic!("{other:?}"),
    }
    assert_eq!(Usage::default().input_tokens, 0);
}

// ---- JSON ----

#[test]
fn strings_are_escaped() {
    let t = Json::Text("a\"b\\c/\u{8}\t\n\u{c}\r\u{0}\u{b}\u{1f}\u{7f}é好".to_string());
    let want = "\"a\\\"b\\\\c/\\b\\t\\n\\f\\r\\u0000\\u000b\\u001f\u{7f}é好\"";
    assert_eq!(t.to_text(), want);
    assert_eq!(Json::parse(want), Ok(t));
    assert_eq!(Json::Text(String::new()).to_text(), "\"\"");
}

#[test]
fn json_text_reads_back() {
    let s = r#"{"b":[1,-2,null,true],"a":"引号\" 和 \\ 与\n","n":1.5}"#;
    let j = json(s);
    assert_eq!(j.to_text(), s);
    assert_eq!(j.get("b").unwrap().as_array().unwrap().len(), 4);
    assert_eq!(j.u64_of("b"), None);
    assert_eq!(json("18446744073709551615").as_u64(), Some(u64::MAX));
    assert_eq!(json("true").as_bool(), Some(true));
    assert!(Json::parse("{").is_err());
    assert!(j.clone() == j);
}

// ---- the system prompt ----

#[test]
fn replaces_known_vars_only() {
    let vars = vec![("CWD", "/w".to_string()), ("OS", "linux".to_string())];
    let t = "目录 {{CWD}} 系统 {{OS}} 未知 {{UNKNOWN}} 保留 {{CWD}}";
    assert_eq!(render_template(t, &vars), "目录 /w 系统 linux 未知 {{UNKNOWN}} 保留 /w");
}

#[test]
fn no_vars_means_byte_identical() {
    let t = "逐字节 #不变! \n\t内容";
    assert_eq!(render_template(t, &vec![]), t);
}

#[test]
fn resolve_prefers_configured_then_cwd_then_exe() {
    assert!(matches!(choose_prompt(None, true, None), PromptPlace::InCwd));
    assert!(matches!(choose_prompt(Some(false), true, Some(true)), PromptPlace::Nowhere));
    assert!(matches!(choose_prompt(Some(true), false, None), PromptPlace::Configured));
    assert!(matches!(choose_prompt(None, false, Some(true)), PromptPlace::BesideExe));
    assert!(matches!(choose_prompt(None, false, Some(false)), PromptPlace::Nowhere));
}
