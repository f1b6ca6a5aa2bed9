use lex_code::agent::{AgentLoop, State, ToolResultInfo};
use lex_code::config::{Config, SecurityConfig};
use lex_code::error::LexError;
use lex_code::json::Json;
use lex_code::message::{Message, Usage};
use lex_code::provider::cache::ImplicitPrefixCacheStrategy;
use lex_code::provider::ProviderEvent;
use lex_code::security::rules::{SecurityGuard, SecurityRules};
use lex_code::security::{PendingAction, PendingDetail};
use lex_code::tools::{Todo, TodoStatus, ToolRegistry};
use lex_code::tui::diff::{line_diff, DiffLine, MAX_DIFF_LINES};
use lex_code::tui::draw::{
    completion_line, context_line, count_rows, input_cursor, question_hint, question_lines,
    question_title, question_window, settings_lines, status_line, strip_ansi, styled_diff_lines,
    todo_lines, transcript_window, wrapped_rows, COMPLETION_HINT,
};
use lex_code::tui::event::UiEvent;
use lex_code::tui::line::{Line, Span};
use lex_code::tui::markdown::{inline_spans, MarkdownState};
use lex_code::tui::run::{
    compact_line, forward_event, hot_apply, result_event, submission, turn_event, usage_event,
    Submission, TurnEnd,
};
use lex_code::tui::state::{AppState, KeyOutcome};
use lex_code::ui::key::{Key, KeyPress};
use lex_code::ui::settings::{SettingsRuntime, SettingsView};
use lex_code::ui::theme;

fn json(s: &str) -> Json {
    match Json::parse(s) {
        Ok(j) => j,
        Err(e) => panic!("{e}"),
    }
}

fn key(code: Key) -> KeyPress {
    KeyPress::plain(code)
}

fn text_of(l: &Line) -> String {
    l.spans.iter().map(|s| s.content.as_str()).collect()
}

fn texts(ls: &[Line]) -> Vec<String> {
    ls.iter().map(text_of).collect()
}

fn delta(t: &str) -> UiEvent {
    UiEvent::TextDelta(t.to_string())
}

fn done() -> UiEvent {
    UiEvent::TurnDone { ok: true, message: String::new() }
}

fn tool_result(name: &str, first_line: &str) -> UiEvent {
    UiEvent::ToolResult {
        tool_name: name.to_string(),
        first_line: first_line.to_string(),
        is_error: false,
    }
}

fn action(detail: PendingDetail) -> PendingAction {
    PendingAction { tool_name: "bash_exec".to_string(), summary: "s".to_string(), detail }
}

fn app_with(evs: Vec<UiEvent>) -> AppState {
    let mut app = AppState::new();
    for e in evs {
        app.apply(e, &vec![]);
    }
    app
}

fn settings_view(cfg: &Config) -> SettingsView {
    SettingsView::from(
        cfg,
        SettingsRuntime {
            compress_attempted: false,
            token_estimate: 0,
            forbidden_count: 0,
            confirm_count: 0,
            auto_count: 0,
            log_level: "warn".to_string(),
            project_type: "Rust".to_string(),
            cwd: ".".to_string(),
        },
    )
}

// ---- differences ----

fn kinds(v: &[DiffLine]) -> Vec<&str> {
    v.iter()
        .map(|l| match l {
            DiffLine::Add(_) => "+",
            DiffLine::Del(_) => "-",
            DiffLine::Ctx(_) => " ",
        })
        .collect()
}

#[test]
fn identical_input_is_all_context() {
    let d = line_diff("a\nb\n", "a\nb\n");
    assert_eq!(kinds(&d), vec![" ", " "]);
}

#[test]
fn middle_replacement_yields_del_then_add() {
    let d = line_diff("fn a() {}\nfn old() {}\nfn c() {}", "fn a() {}\nfn new() {}\nfn c() {}");
    assert_eq!(kinds(&d), vec![" ", "-", "+", " "]);
    assert_eq!(d[1], DiffLine::Del("fn old() {}".to_string()));
    assert_eq!(d[2], DiffLine::Add("fn new() {}".to_string()));
}

#[test]
fn pure_append_keeps_prefix_context() {
    let d = line_diff("a\nb", "a\nb\nc");
    assert_eq!(kinds(&d), vec![" ", " ", "+"]);
    assert_eq!(d[2], DiffLine::Add("c".to_string()));
}

#[test]
fn empty_to_content_is_all_add() {
    let d = line_diff("", "x\ny");
    assert_eq!(kinds(&d), vec!["+", "+"]);
}

#[test]
fn output_is_capped() {
    let old = String::new();
    let new = "x\n".repeat(600);
    let d = line_diff(&old, &new);
    assert_eq!(d.len(), MAX_DIFF_LINES + 1);
    assert_eq!(d.last(), Some(&DiffLine::Del("…(diff 已截断)".to_string())));
}

// ---- drawing ----

#[test]
fn todo_panel_reflects_shared_state() {
    let todos = vec![Todo { content: "写测试".to_string(), status: TodoStatus::InProgress }];
    let mut app = AppState::new();
    app.apply(tool_result("todo_write", "待办已更新"), &todos);
    assert!(texts(&todo_lines(&app, 18)).concat().contains("写测试"));
}

#[test]
fn todo_marks_use_drawn_glyphs() {
    let mut app = AppState::new();
    app.todos = vec![
        Todo { content: "甲".to_string(), status: TodoStatus::Completed },
        Todo { content: "乙".to_string(), status: TodoStatus::InProgress },
        Todo { content: "丙".to_string(), status: TodoStatus::Pending },
    ];
    let screen = texts(&todo_lines(&app, 18)).join("\n");
    assert!(screen.contains("◉ 甲"), "{screen}");
    assert!(screen.contains("◐ 乙"), "{screen}");
    assert!(screen.contains("○ 丙"), "{screen}");
}

#[test]
fn confirm_modal_renders_diff_colored() {
    let a = PendingAction {
        tool_name: "file_edit".to_string(),
        summary: "编辑文件: a.rs".to_string(),
        detail: PendingDetail::FileEdit {
            path: "a.rs".to_string(),
            old_string: "old".to_string(),
            new_string: "new".to_string(),
        },
    };
    let lines = question_lines(&a);
    let screen = texts(&lines).join("\n");
    assert!(question_title(&a).contains("确认操作"));
    assert!(question_title(&a).contains("[file_edit]"));
    assert!(screen.contains("- old"), "{screen}");
    assert!(screen.contains("+ new"), "{screen}");
    assert!(question_hint(0, 0).contains("[y] 允许"));
}

#[test]
fn keys_route_by_mode() {
    let mut app = AppState::new();
    assert_eq!(app.handle_key(key(Key::Char('h'))), KeyOutcome::Nothing);
    assert_eq!(app.handle_key(key(Key::Enter)), KeyOutcome::Submit("h".to_string()));
    app.pending_confirm = Some(action(PendingDetail::Other));
    assert_eq!(app.handle_key(key(Key::Char('y'))), KeyOutcome::Confirm(true));
    assert!(app.pending_confirm.is_none());
    app.pending_confirm = Some(action(PendingDetail::Other));
    assert_eq!(app.handle_key(key(Key::Esc)), KeyOutcome::Confirm(false));
}

#[test]
fn scroll_back_shifts_viewport() {
    let mut app = AppState::new();
    for i in 0..40 {
        app.transcript.push(Line::raw(&format!("行{i:02}")));
    }
    assert_eq!(transcript_window(&app, 58, 17), (23, 0));
    app.scroll = 100;
    assert_eq!(transcript_window(&app, 58, 17), (0, 0));
    app.scroll = 3;
    assert_eq!(transcript_window(&app, 58, 17), (20, 0));
}

#[test]
fn wrapped_tail_of_last_reply_fully_visible() {
    let mut app = AppState::new();
    for i in 0..20 {
        app.apply(delta(&format!("第{i}行{}\n", "很".repeat(60))), &vec![]);
    }
    app.apply(delta(&format!("{}结尾标记", "很".repeat(200))), &vec![]);
    app.apply(done(), &vec![]);
    let (width, visible) = (58usize, 17usize);
    let (start, skip) = transcript_window(&app, width, visible);
    let rows: usize = app.transcript[start..].iter().map(|l| wrapped_rows(l, width)).sum();
    assert_eq!(rows - skip, visible);
    assert!(text_of(app.transcript.last().unwrap()).ends_with("结尾标记"));
}

#[test]
fn long_todo_content_wraps_instead_of_truncating() {
    let mut app = AppState::new();
    app.todos = vec![Todo {
        content: format!("{}任务结尾", "很".repeat(40)),
        status: TodoStatus::InProgress,
    }];
    let flat: String = texts(&todo_lines(&app, 18)).concat().replace(' ', "");
    assert!(flat.contains("任务结尾"), "{flat}");
}

#[test]
fn confirm_modal_long_content_scrollable() {
    let a = action(PendingDetail::Bash { command: format!("deploy --flag {}TAILMARK", "x".repeat(800)) });
    let lines = question_lines(&a);
    let rows = count_rows(&lines, 60);
    assert!(rows > 10);
    let (at, most) = question_window(&a, 60, 10, 0);
    assert_eq!((at, most), (0, rows - 10));
    assert_eq!(question_window(&a, 60, 10, 100), (most, most));
    assert!(question_hint(0, most).contains("滚动查看"));
    assert!(text_of(lines.last().unwrap()).ends_with("TAILMARK"));
}

#[test]
fn ctx_usage_row_and_completion_menu_render() {
    let mut app = AppState::new();
    app.ctx_usage = Some((3200, 64000));
    app.input = "/se".to_string();
    app.cursor = 3;
    let row = text_of(&context_line(&app));
    assert!(row.contains("上下文 3200/64000 tokens(5%)"), "{row}");
    let menu = text_of(&completion_line(&app));
    assert!(menu.contains("/settings"), "{menu}");
    assert!(!menu.contains("/compact"), "{menu}");
    assert!(COMPLETION_HINT.contains("Tab 补全"));
}

#[test]
fn ctx_usage_row_warns_near_threshold() {
    let mut app = AppState::new();
    app.ctx_usage = Some((60000, 64000));
    app.input = "/".to_string();
    app.cursor = 1;
    let row = context_line(&app);
    assert!(text_of(&row).contains("(93%)"));
    assert!(row.spans.iter().any(|s| s.style.fg == Some(theme::C_WARN)));
    let menu = text_of(&completion_line(&app));
    for c in ["/settings", "/compact", "/init"] {
        assert!(menu.contains(c), "{menu}");
    }
}

#[test]
fn todo_icon_stays_with_content_on_wrap() {
    let mut app = AppState::new();
    app.todos = vec![Todo {
        content: format!("{}结尾", "很".repeat(40)),
        status: TodoStatus::InProgress,
    }];
    let rows = texts(&todo_lines(&app, 18));
    assert!(rows[0].starts_with("◐ 很"), "{rows:?}");
    assert!(rows[1].starts_with("  很"), "{rows:?}");
    assert!(rows.iter().all(|r| r != "◐" && r != "◐ "), "{rows:?}");
}

#[test]
fn input_cursor_sits_in_input_box() {
    let mut app = AppState::new();
    app.input = "abc".to_string();
    app.cursor = 3;
    let x = input_cursor(&app, 1, 78);
    assert_eq!(x, 6);
    app.input = "中".repeat(60);
    app.cursor = 60;
    assert_eq!(input_cursor(&app, 1, 78), 78);
}

#[test]
fn diff_lines_render_with_colors() {
    let lines = vec![DiffLine::Add("new".to_string()), DiffLine::Del("old".to_string())];
    let styled = styled_diff_lines(&lines);
    assert_eq!(styled[0].spans[0].style.fg, Some(theme::C_DIFF_ADD));
    assert_eq!(styled[1].spans[0].style.fg, Some(theme::C_DIFF_DEL));
}

#[test]
fn long_transcript_line_wraps_instead_of_truncating() {
    let app = app_with(vec![delta(&format!("{}结尾标记", "很长的一段话".repeat(20)))]);
    let rows = wrapped_rows(&app.transcript[0], 58);
    assert_eq!(rows, 5);
    assert_eq!(transcript_window(&app, 58, 17), (0, 0));
}

#[test]
fn escape_sequences_are_taken_out() {
    assert_eq!(strip_ansi("\x1b[1m粗\x1b[0m体"), "粗体");
    assert_eq!(strip_ansi("plain"), "plain");
}

#[test]
fn status_tells_how_far_one_is_back() {
    let mut app = AppState::new();
    app.status = "就绪".to_string();
    assert_eq!(text_of(&status_line(&app)), "就绪  ");
    app.scroll = 12;
    app.usage = Some("12 tokens".to_string());
    assert_eq!(text_of(&status_line(&app)), "就绪  ↑ 回看 12 行(PgDn 回到底部)  12 tokens");
}

#[test]
fn the_settings_page_shows_the_fields() {
    let mut app = AppState::new();
    assert!(settings_lines(&app).is_empty());
    app.apply(UiEvent::OpenSettings(settings_view(&Config::default())), &vec![]);
    let list = texts(&settings_lines(&app)).join("\n");
    assert!(list.contains("模型") && !list.contains('\x1b'), "{list}");
    app.handle_key(key(Key::Enter));
    let page = texts(&settings_lines(&app)).join("\n");
    assert!(page.contains("> ") && page.contains("anthropic"), "{page}");
    app.handle_key(key(Key::Enter));
    let page = texts(&settings_lines(&app)).join("\n");
    assert!(page.contains("编辑中: anthropic"), "{page}");
}

// ---- markdown ----

fn bold_of(l: &Line) -> Vec<&Span> {
    l.spans.iter().filter(|s| s.style.bold).collect()
}

#[test]
fn heading_line_is_bold_and_strips_hashes() {
    let mut md = MarkdownState::new();
    let out = md.render_line("### 提交计划");
    assert_eq!(out.len(), 1);
    assert_eq!(text_of(&out[0]), "提交计划");
    assert!(out[0].spans[0].style.bold);
}

#[test]
fn marks_are_styles_inside_a_heading() {
    let mut md = MarkdownState::new();
    let out = md.render_line("# 用法 `--help`");
    assert_eq!(out.len(), 1);
    assert_eq!(text_of(&out[0]), "用法 --help");
    assert_eq!(bold_of(&out[0]).len(), out[0].spans.len());
    assert_eq!(out[0].spans[1].style.fg, Some(theme::C_CODE));
}

#[test]
fn rows_are_kept_back_until_the_table_is_taken() {
    let mut md = MarkdownState::new();
    assert!(!md.table_is_buffering());
    for row in ["| a |", "  |---|", "| 1 |"] {
        assert!(md.render_line(row).is_empty());
        assert!(md.table_is_buffering());
    }
    assert_eq!(md.take_table().len(), 3);
    assert!(!md.table_is_buffering());
    assert!(md.take_table().is_empty());
    md.render_line("| b |");
    md.reset();
    assert!(!md.table_is_buffering() && !md.fence);
}

#[test]
fn a_reply_may_be_cut_anywhere() {
    let text = "# 标题 `x`\n\n正文 **粗** *\t\n| a | b |\n|---|---|\n| 1 | 2 |\n尾\n```\n码\n```\n末";
    let mut whole = AppState::new();
    assert!(whole.try_apply(delta(text), &vec![]));
    for (at, _) in text.char_indices() {
        let mut cut = AppState::new();
        assert!(cut.try_apply(delta(&text[..at]), &vec![]));
        assert!(cut.try_apply(delta(&text[at..]), &vec![]));
        assert_eq!(texts(&cut.transcript), texts(&whole.transcript), "{at}");
        assert_eq!(cut.text_buf, whole.text_buf);
    }
}

#[test]
fn bullet_uses_accent_dot_and_inline_styles() {
    let mut md = MarkdownState::new();
    let out = md.render_line("- 复核 **214** 个测试");
    assert_eq!(text_of(&out[0]), "• 复核 214 个测试");
    assert_eq!(out[0].spans[0].style.fg, Some(theme::C_ACCENT));
    assert_eq!(bold_of(&out[0])[0].content, "214");
}

#[test]
fn inline_code_is_cyan_with_distinct_background() {
    let mut md = MarkdownState::new();
    let out = md.render_line("跑 `cargo test` 即可");
    let code = out[0].spans.iter().find(|s| s.style.fg == Some(theme::C_CODE));
    assert_eq!(code.map(|s| s.content.as_str()), Some("cargo test"));
    assert_eq!(code.map(|s| s.style.bg), Some(Some(theme::C_CODE_BG)));
}

#[test]
fn fence_toggles_dims_content_with_background() {
    let mut md = MarkdownState::new();
    assert!(md.render_line("```rust").is_empty());
    assert!(md.fence);
    let body = md.render_line("fn a() {}");
    assert_eq!(body[0].spans[0].style.fg, Some(theme::C_DIM));
    assert_eq!(body[0].spans[0].style.bg, Some(theme::C_CODE_BG));
    assert!(md.render_line("```").is_empty());
    assert!(!md.fence);
}

#[test]
fn multiplication_star_is_not_italic() {
    let mut md = MarkdownState::new();
    let out = md.render_line("a * b = c");
    assert_eq!(text_of(&out[0]), "a * b = c");
    assert!(out[0].spans.iter().all(|s| !s.style.italic));
}

#[test]
fn italic_closes_on_any_star() {
    let mut md = MarkdownState::new();
    let out = md.render_line("*斜体* 后文");
    assert_eq!(text_of(&out[0]), "斜体 后文");
    let italic: Vec<&Span> = out[0].spans.iter().filter(|s| s.style.italic).collect();
    assert_eq!(italic.len(), 1);
    assert_eq!(italic[0].content, "斜体");
    assert_eq!(inline_spans("**a**`b`").len(), 2);
}

#[test]
fn table_buffered_then_flushed_aligned_on_block_end() {
    let mut md = MarkdownState::new();
    assert!(md.render_line("| 工具 | 状态 |").is_empty());
    assert!(md.render_line("|------|------|").is_empty());
    assert!(md.render_line("| file_read | 通过 |").is_empty());
    assert!(md.table_is_buffering() && md.table_fits());
    let out = md.render_line("表格结束");
    assert_eq!(out.len(), 4);
    let w = |s: &str| unicode_width::UnicodeWidthStr::width(s);
    let header = text_of(&out[0]);
    let data = text_of(&out[2]);
    assert!(header.starts_with("│ 工具"), "{header}");
    assert!(data.starts_with("│ file_read"), "{data}");
    assert_eq!(w(&header), w(&text_of(&out[1])), "{header}");
    assert_eq!(w(&header), w(&data), "{header} vs {data}");
    assert_eq!(out[3].spans[0].content, "表格结束");
    assert!(out[0].spans.iter().any(|s| s.style.bold));
}

#[test]
fn table_flushed_via_take_table_at_block_end() {
    let mut md = MarkdownState::new();
    md.render_line("| a | b |");
    md.render_line("|---|---|");
    md.render_line("| 1 | 2 |");
    let out = md.take_table();
    assert_eq!(out.len(), 3);
    assert!(text_of(&out[2]).starts_with("│ 1 "), "{}", text_of(&out[2]));
    assert!(md.try_render_line("正文").is_some());
}

// ---- what the agent tells ----

#[test]
fn forward_event_maps_text_delta_to_ui_event() {
    match forward_event(&ProviderEvent::TextDelta("hello".to_string())) {
        Some(UiEvent::TextDelta(s)) => assert_eq!(s, "hello"),
        other => panic!("{other:?}"),
    }
}

#[test]
fn forward_event_maps_usage_to_ui_event() {
    let usage = Usage { input_tokens: 1, output_tokens: 2, cache_hit_tokens: 3, cache_miss_tokens: 4 };
    match forward_event(&ProviderEvent::Completed { usage }) {
        Some(UiEvent::Usage { input, output, cache_hit }) => {
            assert_eq!(input, 1);
            assert_eq!(output, 2);
            assert_eq!(cache_hit, 3);
        }
        other => panic!("{other:?}"),
    }
}

#[test]
fn forward_event_maps_tool_start_and_ignores_deltas() {
    let start = ProviderEvent::ToolUseStart { id: "t1".to_string(), name: "file_read".to_string() };
    match forward_event(&start) {
        Some(UiEvent::ToolStart { name }) => assert_eq!(name, "file_read"),
        other => panic!("{other:?}"),
    }
    let piece = ProviderEvent::ToolUseDelta { id: "t1".to_string(), partial_json: "{}".to_string() };
    assert!(forward_event(&piece).is_none());
    let complete = ProviderEvent::ToolUseComplete {
        id: "t1".to_string(),
        name: "file_read".to_string(),
        input: json("{}"),
    };
    assert!(forward_event(&complete).is_none());
}

fn agent() -> AgentLoop {
    AgentLoop {
        registry: ToolRegistry::new(),
        security: SecurityGuard::new(SecurityRules::defaults()),
        system: String::new(),
        history: vec![Message::user_text("一二三四五六七八")],
        max_turns: 5,
        cache_strategy: Some(ImplicitPrefixCacheStrategy::new()),
        context_limit: Some(64000),
        pending_summary: None,
        compress_attempted: false,
        state: State::AwaitingInput,
        turns: 0,
        text: None,
        thinking: None,
        calls: vec![],
    }
}

#[test]
fn commands_are_told_from_turns() {
    assert!(matches!(submission("修复"), Submission::Turn(t) if t == "修复"));
    assert!(matches!(submission("/init"), Submission::Turn(t) if t.contains("AGENTS.md")));
    assert!(matches!(submission("/compact"), Submission::Compact));
    assert!(matches!(submission("/set"), Submission::Settings));
    assert!(matches!(submission("/x"), Submission::Unknown));
    assert_eq!(compact_line(&Ok("好".to_string())), "好\n");
    assert!(compact_line(&Err(LexError::Provider("p".to_string()))).contains("压缩失败: "));
}

#[test]
fn the_interface_is_told_how_a_turn_ended() {
    assert!(matches!(turn_event(&TurnEnd::Done), UiEvent::TurnDone { ok: true, message } if message.is_empty()));
    assert!(matches!(turn_event(&TurnEnd::Interrupted), UiEvent::TurnDone { ok: false, message } if message.contains("已中断")));
    let failed = TurnEnd::Failed(LexError::Provider("p".to_string()));
    assert!(matches!(turn_event(&failed), UiEvent::TurnDone { ok: false, message } if message == "本轮失败: Provider 协议错误: p"));
    assert!(matches!(usage_event(&agent()), UiEvent::ContextUsage { used: 2, limit: 64000 }));
    let info = ToolResultInfo { tool_name: "t".to_string(), first_line: "f".to_string(), is_error: true };
    assert!(matches!(result_event(&info), UiEvent::ToolResult { is_error: true, .. }));
}

#[test]
fn a_configuration_takes_effect_item_by_item() {
    let mut a = agent();
    let mut cfg = Config::default();
    cfg.context.enabled = false;
    cfg.security = SecurityConfig { forbidden: vec!["x".to_string()], ..SecurityConfig::default() };
    let told = hot_apply(&mut a, &cfg, &Ok(()));
    assert_eq!(told, "⚙ Provider/模型已切换;安全规则已更新;上下文限制已更新\n");
    assert_eq!(a.context_limit, None);
    assert_eq!(a.security.rule_counts(), (4, 0, 0));
    assert_eq!(a.history.len(), 1);
    cfg.security.forbidden = vec!["([".to_string()];
    let told = hot_apply(&mut a, &cfg, &Err("断网".to_string()));
    assert!(told.contains("热切换失败(保留原值): 断网") && told.contains("保留原规则"), "{told}");
    assert_eq!(a.security.rule_counts(), (4, 0, 0));
}

// ---- the state ----

#[test]
fn thinking_delta_shows_snippet_in_status() {
    let app = app_with(vec![UiEvent::ThinkingDelta("正在分析缓存前缀".to_string())]);
    assert!(app.status.contains("正在分析缓存前缀"), "{}", app.status);
}

#[test]
fn thinking_snippet_is_truncated_and_takes_last_line() {
    let long = "第一行\n".to_string() + &"很长的一段思考".repeat(20);
    let app = app_with(vec![UiEvent::ThinkingDelta(long)]);
    assert!(app.status.contains("很长"), "{}", app.status);
    assert!(!app.status.contains("第一行"), "{}", app.status);
    assert!(app.status.chars().count() <= 60, "{}", app.status.chars().count());
}

#[test]
fn empty_thinking_keeps_plain_hint() {
    let app = app_with(vec![UiEvent::ThinkingDelta(String::new())]);
    assert_eq!(app.status, "思考中…");
}

#[test]
fn consecutive_text_deltas_share_one_line() {
    let app = app_with(vec![delta("排查"), delta("某个"), delta("bug")]);
    assert_eq!(app.transcript.len(), 1);
    assert_eq!(text_of(&app.transcript[0]), "排查某个bug");
}

#[test]
fn newline_in_delta_breaks_line_and_next_delta_continues() {
    let app = app_with(vec![delta("第一行\n第二"), delta("行")]);
    assert_eq!(app.transcript.len(), 2);
    assert_eq!(text_of(&app.transcript[0]), "第一行");
    assert_eq!(text_of(&app.transcript[1]), "第二行");
}

#[test]
fn text_after_tool_result_starts_new_line() {
    let app = app_with(vec![
        delta("先看文件"),
        tool_result("file_read", "读到 3 行"),
        delta("结论如下"),
    ]);
    assert_eq!(app.transcript.len(), 3);
    assert!(text_of(&app.transcript[1]).starts_with("  ⎿ 读到 3 行"));
    assert_eq!(text_of(&app.transcript[2]), "结论如下");
}

#[test]
fn submitted_input_is_echoed_into_transcript() {
    let mut app = AppState::new();
    app.push_user_input("修一下这个 bug");
    assert_eq!(app.transcript.len(), 1);
    assert_eq!(text_of(&app.transcript[0]), "› 修一下这个 bug");
    app.apply(delta("好的"), &vec![]);
    assert_eq!(app.transcript.len(), 2);
    assert_eq!(text_of(&app.transcript[1]), "好的");
    assert!(app.try_push_user_input("再来"));
}

#[test]
fn new_turn_does_not_append_to_previous_reply() {
    let app = app_with(vec![delta("上一轮结尾"), UiEvent::TurnStarted, delta("本轮开头")]);
    assert_eq!(app.transcript.len(), 2);
    assert_eq!(text_of(&app.transcript[0]), "上一轮结尾");
    assert_eq!(text_of(&app.transcript[1]), "本轮开头");
}

#[test]
fn closed_text_line_renders_markdown() {
    let app = app_with(vec![delta("### 计划\n正文继续")]);
    assert_eq!(text_of(&app.transcript[0]), "计划");
    assert!(app.transcript[0].spans[0].style.bold);
    assert_eq!(text_of(&app.transcript[1]), "正文继续");
}

#[test]
fn open_line_renders_on_turn_done() {
    let mut app = app_with(vec![delta("看 `code` 就行")]);
    assert_eq!(text_of(&app.transcript[0]), "看 `code` 就行");
    app.apply(done(), &vec![]);
    assert!(app.transcript[0].spans.iter().any(|s| s.style.fg == Some(theme::C_CODE)));
}

#[test]
fn fence_lines_render_dim_with_placeholder_markers() {
    let app = app_with(vec![delta("```rust\nfn a() {}\n```\n之后")]);
    assert_eq!(app.transcript.len(), 4);
    assert_eq!(text_of(&app.transcript[0]), "");
    assert_eq!(app.transcript[1].spans[0].style.fg, Some(theme::C_DIM));
    assert_eq!(text_of(&app.transcript[3]), "之后");
}

#[test]
fn tool_result_closes_open_markdown_line() {
    let app = app_with(vec![delta("- 任务一"), tool_result("bash_exec", "ok")]);
    assert_eq!(app.transcript[0].spans[0].content, "•");
    assert_eq!(app.transcript[0].spans[0].style.fg, Some(theme::C_ACCENT));
}

#[test]
fn table_at_turn_end_flushes_aligned() {
    let app = app_with(vec![delta("| 工具 | 状态 |\n|---|---|\n| file_read | 通过 |\n"), done()]);
    let texts = texts(&app.transcript);
    assert!(texts.iter().any(|t| t.starts_with("│ 工具")), "{texts:?}");
    assert!(texts.iter().any(|t| t.starts_with("├")), "{texts:?}");
    assert!(texts.iter().any(|t| t.starts_with("│ file_read")), "{texts:?}");
    let first_table = texts.iter().position(|t| t.starts_with("│")).unwrap();
    assert!(texts[..first_table].iter().all(|t| !t.is_empty()), "{texts:?}");
}

#[test]
fn slash_completion_filter_cycle_and_tab() {
    let mut app = AppState::new();
    app.handle_key(key(Key::Char('/')));
    assert_eq!(app.completion_candidates().len(), 3);
    app.handle_key(key(Key::Down));
    assert_eq!(app.completion_sel, 1);
    app.handle_key(key(Key::Up));
    app.handle_key(key(Key::Up));
    assert_eq!(app.completion_sel, 2);
    for c in "compact".chars() {
        app.handle_key(key(Key::Char(c)));
    }
    assert_eq!(app.completion_candidates(), vec!["/compact"]);
    app.handle_key(key(Key::Tab));
    assert_eq!(app.input, "/compact");
    assert_eq!(app.cursor, 8);
    app.handle_key(key(Key::Char(' ')));
    assert!(app.completion_candidates().is_empty());
    app.handle_key(key(Key::Backspace));
    app.handle_key(key(Key::Enter));
    assert_eq!(app.completion_sel, 0);
}

#[test]
fn settings_edit_flow_commit_and_hot_apply() {
    let mut app = app_with(vec![UiEvent::OpenSettings(settings_view(&Config::default()))]);
    app.handle_key(key(Key::Enter));
    app.handle_key(key(Key::Enter));
    assert!(app.settings_edit);
    assert_eq!(app.input, "anthropic");
    for _ in 0..9 {
        app.handle_key(key(Key::Backspace));
    }
    for c in "openai".chars() {
        app.handle_key(key(Key::Char(c)));
    }
    assert_eq!(app.handle_key(key(Key::Enter)), KeyOutcome::SaveField);
    let plan = app.plan_settings_edit(None).unwrap().unwrap();
    assert!(plan.file.contains("provider = \"openai\""), "{}", plan.file);
    app.commit_settings_edit(Ok(plan));
    assert!(!app.settings_edit);
    let (view, _) = app.settings.as_ref().unwrap();
    assert_eq!(view.config.provider, "openai");
    assert_eq!(view.config.openai.model, Config::default().openai.model);
    assert!(app.settings_msg.as_ref().unwrap().1);
    assert!(app.take_settings_commit().is_some());
    assert!(app.take_settings_commit().is_none());
}

#[test]
fn settings_edit_invalid_input_rejected() {
    let mut app = app_with(vec![UiEvent::OpenSettings(settings_view(&Config::default()))]);
    app.handle_key(key(Key::Enter));
    app.handle_key(key(Key::Enter));
    for c in "nonsense".chars() {
        app.handle_key(key(Key::Char(c)));
    }
    assert_eq!(app.handle_key(key(Key::Enter)), KeyOutcome::SaveField);
    let plan = app.plan_settings_edit(None).unwrap();
    assert!(plan.is_err());
    app.commit_settings_edit(plan);
    assert_eq!(app.settings.as_ref().unwrap().0.config.provider, "anthropic");
    assert!(app.take_settings_commit().is_none());
    assert!(!app.settings_msg.as_ref().unwrap().1);
}

#[test]
fn context_usage_event_updates_state() {
    let mut app = AppState::new();
    assert!(app.ctx_usage.is_none());
    app.apply(UiEvent::ContextUsage { used: 3200, limit: 64000 }, &vec![]);
    assert_eq!(app.ctx_usage, Some((3200, 64000)));
}

#[test]
fn confirm_modal_keys_scroll_content() {
    let mut app = AppState::new();
    app.apply(UiEvent::Confirm { action: action(PendingDetail::Other) }, &vec![]);
    assert_eq!(app.confirm_scroll, 0);
    app.handle_key(key(Key::PageDown));
    app.handle_key(key(Key::PageDown));
    assert_eq!(app.confirm_scroll, 20);
    app.handle_key(key(Key::PageUp));
    assert_eq!(app.confirm_scroll, 10);
    assert!(app.pending_confirm.is_some());
    app.handle_key(key(Key::Char('y')));
    assert!(app.pending_confirm.is_none());
}

#[test]
fn settings_overlay_intercepts_keys_and_esc_closes() {
    let mut app = app_with(vec![UiEvent::OpenSettings(settings_view(&Config::default()))]);
    assert!(app.settings.is_some());
    app.handle_key(key(Key::Char('a')));
    assert!(app.input.is_empty());
    app.handle_key(key(Key::Esc));
    assert!(app.settings.is_none());
    app.handle_key(key(Key::Char('a')));
    assert_eq!(app.input, "a");
}

#[test]
fn scroll_keys_adjust_offset_and_submit_resets() {
    let mut app = AppState::new();
    app.handle_key(key(Key::PageUp));
    app.handle_key(key(Key::PageUp));
    assert_eq!(app.scroll, 20);
    app.handle_key(key(Key::PageDown));
    app.handle_key(key(Key::PageDown));
    assert_eq!(app.scroll, 0);
    app.handle_key(key(Key::PageUp));
    app.handle_key(key(Key::Enter));
    app.push_user_input("新问题");
    assert_eq!(app.scroll, 0);
    app.wheel(true);
    assert_eq!(app.scroll, 3);
    app.wheel(false);
    assert_eq!(app.scroll, 0);
}

#[test]
fn input_editing_cursor_moves_and_edits() {
    let mut app = AppState::new();
    for c in "abc".chars() {
        app.handle_key(key(Key::Char(c)));
    }
    assert_eq!(app.input, "abc");
    assert_eq!(app.cursor, 3);
    app.handle_key(key(Key::Left));
    app.handle_key(key(Key::Char('X')));
    assert_eq!(app.input, "abXc");
    assert_eq!(app.cursor, 3);
    app.handle_key(key(Key::Backspace));
    assert_eq!(app.input, "abc");
    assert_eq!(app.cursor, 2);
    app.handle_key(key(Key::Left));
    app.handle_key(key(Key::Left));
    assert_eq!(app.cursor, 0);
    app.handle_key(key(Key::Delete));
    assert_eq!(app.input, "bc");
    app.handle_key(key(Key::Home));
    app.handle_key(key(Key::Char('中')));
    assert_eq!(app.input, "中bc");
    assert_eq!(app.cursor, 1);
    app.handle_key(key(Key::Backspace));
    assert_eq!(app.input, "bc");
    assert_eq!(app.cursor, 0);
    app.handle_key(key(Key::End));
    assert_eq!(app.cursor, 2);
}

#[test]
fn interrupting_and_leaving() {
    let mut app = AppState::new();
    let ctrl_c = KeyPress::with_control(Key::Char('c'));
    app.apply(UiEvent::TurnStarted, &vec![]);
    assert_eq!(app.handle_key(ctrl_c), KeyOutcome::Interrupt);
    app.apply(done(), &vec![]);
    assert_eq!(app.handle_key(ctrl_c), KeyOutcome::Quit);
    app.input = "x".to_string();
    app.cursor = 1;
    app.handle_key(KeyPress::with_control(Key::Char('u')));
    assert!(app.input.is_empty());
    assert!(app.takes(&delta("x")) && app.try_apply(UiEvent::Exit, &vec![]));
    assert!(app.quit);
}
