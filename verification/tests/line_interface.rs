use lex_code::agent::{ChildEvent, ChildEventKind, ToolResultInfo};
use lex_code::config::{AnthropicConfig, Config, OpenAiConfig};
use lex_code::json::Json;
use lex_code::message::Usage;
use lex_code::provider::ProviderEvent;
use lex_code::render;
use lex_code::ui::banner::{banner_text, VERSION};
use lex_code::ui::events::{render_child_event, summarize, Renderer};
use lex_code::ui::input::{
    box_edge, box_width, fit_cols, line_outcome, receipt, BoxStep, BoxedInput, InputHistory,
    InputOutcome, InputState,
};
use lex_code::ui::key::{Key, KeyPress};
use lex_code::ui::markdown::{one_shot_tail, render_str, MarkdownStream};
use lex_code::ui::settings::{
    command_names, edit_config, field_defs, init_prompt, parse_command, parse_u32, render_detail,
    render_list, resolve_log_level, PageAction, PageState, SettingsRuntime, SettingsView, SlashCommand,
    MODULE_TITLES,
};
use lex_code::ui::settings_file::try_write_back;
use lex_code::ui::theme;

fn json(s: &str) -> Json {
    match Json::parse(s) {
        Ok(j) => j,
        Err(e) => panic!("{e}"),
    }
}

// ---- what children do ----

fn ev(id: u32, kind: ChildEventKind) -> ChildEvent {
    ChildEvent { child_id: id, depth: 1, kind }
}

#[test]
fn summarize_covers_spawn_subagent_task() {
    assert_eq!(summarize("spawn_subagent", &json(r#"{"task": "排查"}"#)), "排查");
    assert_eq!(summarize("spawn_subagent", &json("{}")), "<未知任务>");
    assert_eq!(summarize("bash_exec", &json(r#"{"command":"ls"}"#)), "ls");
    let long = format!(r#"{{"command":"{}"}}"#, "x".repeat(200));
    let shown = summarize("bash_exec", &json(&long));
    assert_eq!(shown, format!("{}…", "x".repeat(79)));
    let exact = format!(r#"{{"command":"{}"}}"#, "x".repeat(80));
    assert_eq!(summarize("bash_exec", &json(&exact)), "x".repeat(80));
    assert_eq!(summarize("bash_exec", &json(r#"{"command":" a\nb\r\nc "}"#)), "a b  c");
}

#[test]
fn rendered_child_events_carry_attribution_and_finished_is_silent() {
    let started = render_child_event(&ev(2, ChildEventKind::Started { task: "排查".to_string() }));
    assert!(started.as_deref().unwrap_or_default().contains("[子2]"), "{started:?}");
    assert!(started.as_deref().unwrap_or_default().contains("排查"));
    let call = render_child_event(&ev(
        2,
        ChildEventKind::ToolCall { name: "file_read".to_string(), input: json(r#"{"path": "a.rs"}"#) },
    ));
    assert!(call.as_deref().unwrap_or_default().contains("[子2]"), "{call:?}");
    assert!(call.as_deref().unwrap_or_default().contains("a.rs"), "{call:?}");
    let ok = render_child_event(&ev(
        2,
        ChildEventKind::ToolResult {
            name: "file_read".to_string(),
            first_line: "读到了".to_string(),
            is_error: false,
        },
    ));
    assert!(ok.as_deref().unwrap_or_default().contains("[子2]"), "{ok:?}");
    let done = ev(2, ChildEventKind::Finished { summary_first_line: "done".to_string() });
    assert!(render_child_event(&done).is_none());
}

#[test]
fn child_events_do_not_disturb_parent_pending_tools() {
    let mut r = Renderer::new();
    r.pending_tools = 2;
    r.child_event(&ev(1, ChildEventKind::Started { task: "排查".to_string() }));
    r.child_event(&ev(
        1,
        ChildEventKind::ToolCall { name: "file_read".to_string(), input: json(r#"{"path": "a"}"#) },
    ));
    r.child_event(&ev(
        1,
        ChildEventKind::ToolResult {
            name: "file_read".to_string(),
            first_line: "ok".to_string(),
            is_error: false,
        },
    ));
    r.child_event(&ev(1, ChildEventKind::Finished { summary_first_line: "done".to_string() }));
    assert_eq!(r.pending_tools, 2);
}

#[test]
fn the_note_on_tokens_waits_for_the_results() {
    let mut r = Renderer::new();
    let call = ProviderEvent::ToolUseComplete {
        id: "t".to_string(),
        name: "bash_exec".to_string(),
        input: json(r#"{"command":"ls"}"#),
    };
    assert!(r.render(&call).contains("ls"));
    assert_eq!(r.pending_tools, 1);
    let usage = Usage { input_tokens: 12, output_tokens: 3, ..Usage::default() };
    assert!(!r.render(&ProviderEvent::Completed { usage }).contains("12"));
    let info = ToolResultInfo {
        tool_name: "bash_exec".to_string(),
        first_line: "a.rs".to_string(),
        is_error: false,
    };
    let out = r.tool_result(&info);
    assert!(out.contains("⎿") && out.contains("a.rs") && out.contains("12"), "{out:?}");
}

#[test]
fn plain_renderer_prints_text_as_it_comes() {
    let mut r = render::Renderer::new();
    assert_eq!(r.render(&ProviderEvent::TextDelta("你好".to_string())), "你好");
    let thought = r.render(&ProviderEvent::ThinkingDelta("想".to_string()));
    assert!(thought.contains("想"));
    let after = r.render(&ProviderEvent::TextDelta("答".to_string()));
    assert!(after.ends_with("答") && after.len() > "答".len());
}

// ---- the input line ----

#[test]
fn insert_backspace_delete() {
    let mut s = InputState::new(10);
    for c in "abc".chars() {
        s.insert(c);
    }
    s.left();
    s.left();
    s.insert('X');
    assert_eq!(s.text(), "aXbc");
    s.backspace();
    assert_eq!(s.text(), "abc");
    s.delete();
    assert_eq!(s.text(), "ac");
}

#[test]
fn cursor_movement_bounds() {
    let mut s = InputState::new(10);
    for c in "ab".chars() {
        s.insert(c);
    }
    s.left();
    s.left();
    s.left();
    assert_eq!(s.cursor, 0);
    s.right();
    s.right();
    s.right();
    assert_eq!(s.cursor, 2);
    s.home();
    assert_eq!(s.cursor, 0);
    s.end();
    assert_eq!(s.cursor, 2);
}

#[test]
fn viewport_follows_cursor_right() {
    let mut s = InputState::new(5);
    for c in "abcdefghij".chars() {
        s.insert(c);
    }
    let (visible, col) = s.viewport();
    assert_eq!(visible, "fghij");
    assert_eq!(col, 5);
}

#[test]
fn viewport_follows_cursor_left() {
    let mut s = InputState::new(5);
    for c in "abcdefghij".chars() {
        s.insert(c);
    }
    let _ = s.viewport();
    s.home();
    let (visible, col) = s.viewport();
    assert_eq!(visible, "abcde");
    assert_eq!(col, 0);
}

#[test]
fn viewport_counts_cjk_as_double() {
    let mut s = InputState::new(4);
    for c in "中文ab".chars() {
        s.insert(c);
    }
    let (visible, col) = s.viewport();
    assert_eq!(visible, "文ab");
    assert_eq!(col, 4);
}

#[test]
fn history_prev_next_roundtrip() {
    let mut h = InputHistory::default();
    h.push("第一".to_string());
    h.push("第二".to_string());
    assert_eq!(h.prev("草稿"), Some("第二".to_string()));
    assert_eq!(h.prev("第二"), Some("第一".to_string()));
    assert_eq!(h.prev("第一"), None);
    assert_eq!(h.next(), Some("第二".to_string()));
    assert_eq!(h.next(), Some("草稿".to_string()));
    assert_eq!(h.next(), None);
}

#[test]
fn the_box_is_left_on_the_second_try() {
    let mut h = InputHistory::default();
    let mut b = BoxedInput::new(20);
    let ctrl_c = KeyPress::with_control(Key::Char('c'));
    b.press(&mut h, KeyPress::plain(Key::Char('x')));
    assert!(matches!(b.press(&mut h, ctrl_c), BoxStep::Redraw));
    assert!(b.state.is_empty());
    assert!(matches!(b.press(&mut h, ctrl_c), BoxStep::Redraw));
    assert!(matches!(b.press(&mut h, ctrl_c), BoxStep::Exit));
    let mut b = BoxedInput::new(20);
    assert!(matches!(b.press(&mut h, KeyPress::with_control(Key::Char('d'))), BoxStep::Exit));
    h.push("旧".to_string());
    b.press(&mut h, KeyPress::plain(Key::Up));
    assert_eq!(b.state.text(), "旧");
    assert!(b.redraw().contains("旧"));
    assert!(matches!(b.press(&mut h, KeyPress::plain(Key::Enter)), BoxStep::Submit(t) if t == "旧"));
}

#[test]
fn a_blank_line_ends_a_session_without_a_box() {
    assert_eq!(line_outcome("  \n"), InputOutcome::Exit);
    assert_eq!(line_outcome(" 你好 \n"), InputOutcome::Submitted("你好".to_string()));
    assert_eq!(box_width(80), 78);
    assert_eq!(box_width(1), 0);
    assert_eq!(box_width(300), 100);
    let edge = box_edge("╭", "╮", 6);
    assert!(edge.contains('╭') && edge.contains('╮') && edge.matches('─').count() == 6, "{edge}");
    assert!(receipt("你好").contains("你好"));
}

// ---- markdown ----

fn rendered(chunks: &[&str]) -> String {
    let mut md = MarkdownStream::new();
    let mut out = String::new();
    for c in chunks {
        out.push_str(&md.feed(c));
    }
    out.push_str(&md.flush());
    out
}

#[test]
fn bold_and_inline_code() {
    assert_eq!(
        rendered(&["**粗体** 和 `code`\n"]),
        format!("{}粗体{} 和 {}code{}\n", theme::BOLD, theme::RESET, theme::CODE, theme::RESET)
    );
}

#[test]
fn partial_line_flushed_at_end() {
    assert_eq!(rendered(&["**粗", "体**"]), format!("{}粗体{}", theme::BOLD, theme::RESET));
}

#[test]
fn italic_needs_non_space_after_star() {
    assert_eq!(rendered(&["a * b\n"]), "a * b\n");
    assert_eq!(rendered(&["a *\tb\n"]), "a *\tb\n");
    assert_eq!(rendered(&["a *\u{3000}b\n"]), "a *\u{3000}b\n");
    assert_eq!(
        rendered(&["这是 *重点* 说明\n"]),
        format!("这是 {}重点{} 说明\n", theme::ITALIC, theme::RESET)
    );
}

#[test]
fn heading_and_bullet() {
    assert_eq!(
        rendered(&["# 标题\n- 项一\n* 项二\n"]),
        format!(
            "{}标题{}\n{}•{} 项一\n{}•{} 项二\n",
            theme::BOLD,
            theme::RESET,
            theme::ACCENT,
            theme::RESET,
            theme::ACCENT,
            theme::RESET
        )
    );
}

#[test]
fn fence_block_is_dim_and_hidden() {
    assert_eq!(
        rendered(&["```rust\nfn a() {}\n```\nafter\n"]),
        format!("\n{}fn a() {{}}{}\n\nafter\n", theme::DIM, theme::RESET)
    );
}

#[test]
fn unclosed_inline_style_resets_at_line_end() {
    assert_eq!(rendered(&["**粗体"]), format!("{}粗体{}", theme::BOLD, theme::RESET));
}

#[test]
fn inline_styles_apply_inside_bullet_and_heading() {
    assert_eq!(
        rendered(&["- **做了什么**: 读了文件\n"]),
        format!(
            "{}•{} {}做了什么{}: 读了文件\n",
            theme::ACCENT,
            theme::RESET,
            theme::BOLD,
            theme::RESET
        )
    );
    assert_eq!(
        rendered(&["# 用法 `--help`\n"]),
        format!("{}用法 {}--help{}{}\n", theme::BOLD, theme::CODE, theme::RESET, theme::RESET)
    );
}

#[test]
fn chunks_make_no_difference() {
    let text = "# 标题\n- **项** `x`\n```\n代码\n```\n尾 *斜*";
    let chars: Vec<String> = text.chars().map(|c| c.to_string()).collect();
    let pieces: Vec<&str> = chars.iter().map(|s| s.as_str()).collect();
    assert_eq!(rendered(&pieces), rendered(&[text]));
    assert_eq!(render_str(text), rendered(&[text]));
}

#[test]
fn lines_are_shown_when_they_end() {
    let mut md = MarkdownStream::new();
    assert_eq!(md.feed("**一"), "");
    let out = md.feed("**\n- 二\n三");
    assert_eq!(out.matches('\n').count(), 2);
    assert!(out.ends_with('\n') && !out.contains('三'), "{out}");
    assert_eq!(md.flush(), "三");
    assert_eq!(md.flush(), "");
}

#[test]
fn columns_are_filled_one_after_the_other() {
    let cols = vec![1, 2, 2, 0, 1];
    assert_eq!(fit_cols(&cols, 0, 4), 2);
    assert_eq!(fit_cols(&cols, 0, 5), 4);
    assert_eq!(fit_cols(&cols, 1, 100), 4);
    assert_eq!(fit_cols(&cols, 2, 1), 0);
    assert_eq!(fit_cols(&cols, 5, 3), 0);
}

#[test]
fn one_shot_tail_skips_reprint_on_tty_and_renders_for_pipes() {
    let text = "**重点** 说明\n第二行";
    assert_eq!(one_shot_tail(text, true), None);
    let piped = one_shot_tail(text, false).unwrap();
    assert!(piped.contains(&theme::BOLD.to_string()), "{piped:?}");
    assert!(!piped.contains("**"), "{piped:?}");
    assert!(piped.ends_with('\n'), "{piped:?}");
}

#[test]
fn the_banner_names_the_session() {
    let b = banner_text(100, "openai", "deepseek-chat", "/w", "Rust");
    for part in ["openai", "deepseek-chat", "/w", "Rust", VERSION] {
        assert!(b.contains(part), "{part}");
    }
    assert!(!b.contains("Lex Code"));
    assert!(banner_text(20, "openai", "m", "/w", "Rust").contains("██ Lex Code"));
}

// ---- the settings ----

fn runtime() -> SettingsRuntime {
    SettingsRuntime {
        compress_attempted: true,
        token_estimate: 1_234,
        forbidden_count: 3,
        confirm_count: 1,
        auto_count: 2,
        log_level: "warn".to_string(),
        project_type: "Rust".to_string(),
        cwd: "D:/demo".to_string(),
    }
}

fn anthropic_cfg() -> Config {
    Config {
        anthropic: AnthropicConfig {
            base_url: "https://api.test".to_string(),
            model: "model-x".to_string(),
            ..AnthropicConfig::default()
        },
        ..Config::default()
    }
}

fn openai_cfg() -> Config {
    Config {
        provider: "openai".to_string(),
        openai: OpenAiConfig {
            base_url: "https://api.test".to_string(),
            model: "deepseek-x".to_string(),
            thinking: Some("enabled".to_string()),
            reasoning_effort: Some("high".to_string()),
            ..OpenAiConfig::default()
        },
        ..Config::default()
    }
}

#[test]
fn view_maps_anthropic_config() {
    let v = SettingsView::from(&anthropic_cfg(), runtime());
    assert_eq!(v.provider, "anthropic");
    assert_eq!(v.model, "model-x");
    assert_eq!(v.max_tokens, "8192");
    assert_eq!(v.openai_thinking, None);
    assert!(v.api_key_source.contains("LEX_ANTHROPIC_API_KEY"));
}

#[test]
fn view_maps_openai_config_and_thinking() {
    let v = SettingsView::from(&openai_cfg(), runtime());
    assert_eq!(v.provider, "openai");
    assert_eq!(v.model, "deepseek-x");
    assert_eq!(v.max_tokens, "未设置(服务端默认)");
    assert_eq!(v.openai_thinking.as_deref(), Some("enabled"));
    assert_eq!(v.openai_effort.as_deref(), Some("high"));
    assert!(v.api_key_source.contains("LEX_OPENAI_API_KEY"));
}

#[test]
fn resolve_log_level_precedence() {
    assert_eq!(resolve_log_level(Some("debug"), Some("trace")), "debug");
    assert_eq!(resolve_log_level(None, Some("trace")), "trace");
    assert_eq!(resolve_log_level(Some("  "), Some("trace")), "trace");
    assert_eq!(resolve_log_level(None, None), "warn");
}

#[test]
fn runtime_fixture_holds_session_state() {
    let rt = runtime();
    assert!(rt.compress_attempted);
    assert_eq!(rt.token_estimate, 1_234);
    assert_eq!(rt.forbidden_count, 3);
}

#[test]
fn list_renders_four_modules_with_selection() {
    let v = SettingsView::from(&anthropic_cfg(), runtime());
    let lines = render_list(&v, 1);
    let joined = lines.join("\n");
    for title in MODULE_TITLES {
        assert!(joined.contains(title), "{title}");
    }
    assert!(lines.iter().any(|l| l.contains('>') && l.contains(MODULE_TITLES[1])));
    assert!(joined.contains("返回"));
}

#[test]
fn detail_renders_fields_and_pending_marker() {
    let v = SettingsView::from(&anthropic_cfg(), runtime());
    let joined = render_detail(&v, 0).join("\n");
    assert!(joined.contains("model-x"));
    assert!(joined.contains("https://api.test"));
    assert!(joined.contains("LEX_ANTHROPIC_API_KEY"));
    assert!(joined.contains("待实现"));
    let sec = render_detail(&v, 1).join("\n");
    assert!(sec.chars().any(|c| c == '3'));
    let ctx = render_detail(&v, 2).join("\n");
    assert!(ctx.contains("64000") || ctx.contains("64,000"));
    assert!(ctx.contains("已触发"));
}

#[test]
fn parse_command_matches_settings_only() {
    assert!(matches!(parse_command("/settings"), Some(SlashCommand::Settings)));
    assert!(matches!(parse_command("/Settings"), Some(SlashCommand::Unknown)));
    assert!(matches!(parse_command("/foo"), Some(SlashCommand::Unknown)));
    assert!(matches!(parse_command(" /settings  "), Some(SlashCommand::Settings)));
    assert_eq!(parse_command("你好"), None);
    assert_eq!(parse_command(""), None);
    assert_eq!(parse_command("settings"), None);
}

#[test]
fn parse_command_accepts_unique_prefix() {
    assert!(matches!(parse_command("/setting"), Some(SlashCommand::Settings)));
    assert!(matches!(parse_command("/set"), Some(SlashCommand::Settings)));
    assert!(matches!(parse_command("/s"), Some(SlashCommand::Settings)));
    assert!(matches!(parse_command("/"), Some(SlashCommand::Unknown)));
    assert!(matches!(parse_command("/settingsx"), Some(SlashCommand::Unknown)));
    assert!(matches!(parse_command("/co"), Some(SlashCommand::Compact)));
    assert!(matches!(parse_command("/i"), Some(SlashCommand::Init)));
    assert_eq!(command_names(), vec!["/settings", "/compact", "/init"]);
    assert_eq!(parse_command(&init_prompt()), None);
}

#[test]
fn selection_moves_within_bounds() {
    let mut s = PageState::new();
    assert_eq!(s.handle_key(0, Key::Up), PageAction::Nothing);
    assert_eq!(s.selected, 0);
    s.handle_key(0, Key::Down);
    s.handle_key(0, Key::Down);
    s.handle_key(0, Key::Down);
    s.handle_key(0, Key::Down);
    assert_eq!(s.selected, 3);
}

#[test]
fn number_keys_jump_to_module() {
    let mut s = PageState::new();
    assert_eq!(s.handle_key(0, Key::Char('3')), PageAction::EnterDetail(2));
    assert_eq!(s.selected, 2);
    assert_eq!(s.handle_key(0, Key::Char('9')), PageAction::Nothing);
}

#[test]
fn enter_and_escape_navigate() {
    let mut s = PageState::new();
    assert_eq!(s.handle_key(0, Key::Enter), PageAction::EnterDetail(0));
    s.in_detail = true;
    assert_eq!(s.handle_key(0, Key::Esc), PageAction::ToList);
    assert!(!s.in_detail);
    assert_eq!(s.handle_key(0, Key::Esc), PageAction::Quit);
    let mut s2 = PageState::new();
    assert_eq!(s2.handle_key(0, Key::Char('q')), PageAction::Quit);
}

// ---- saving ----

#[test]
fn saving_keeps_what_it_does_not_know() {
    let file = "custom = 7\n[anthropic]\nmodel = \"old\"\nextra = \"kept\"\n";
    let text = try_write_back(Some(file), &anthropic_cfg()).unwrap().unwrap();
    assert!(text.contains("custom = 7"), "{text}");
    assert!(text.contains("extra = \"kept\""), "{text}");
    assert!(text.contains("model = \"model-x\""), "{text}");
    assert!(!text.contains("\"old\""), "{text}");
    let again = try_write_back(Some(&text), &anthropic_cfg()).unwrap().unwrap();
    assert_eq!(again, text);
}

#[test]
fn saving_starts_anew_where_there_is_no_file() {
    let text = try_write_back(None, &openai_cfg()).unwrap().unwrap();
    assert!(text.contains("provider = \"openai\""), "{text}");
    assert!(text.contains("thinking = \"enabled\""), "{text}");
    assert!(try_write_back(Some("anthropic = 1\n"), &openai_cfg()).is_none());
}

#[test]
fn fields_are_checked_before_they_are_taken() {
    let cfg = anthropic_cfg();
    assert!(edit_config(&cfg, 0, 0, "nonsense").is_err());
    assert_eq!(edit_config(&cfg, 0, 0, "openai").unwrap().provider, "openai");
    assert_eq!(parse_u32("42"), Some(42));
    assert_eq!(parse_u32("-1"), None);
    assert_eq!(parse_u32("4294967296"), None);
    assert_eq!(field_defs(3).len(), 0);
    assert!(!field_defs(0).is_empty());
}
