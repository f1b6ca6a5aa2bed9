use lex_code::error::LexError;
use lex_code::json::Json;
use lex_code::message::{Block, Message, Role, Usage};
use lex_code::provider::anthropic::{AnthropicProvider, AnthropicStream, SseFrame};
use lex_code::provider::anthropic_types;
use lex_code::provider::bytes::{valid_prefix, EventBuffer};
use lex_code::provider::cache::ImplicitPrefixCacheStrategy;
use lex_code::provider::calls::{CallTable, ToolAcc};
use lex_code::provider::openai_compat::{
    OpenAiChoice, OpenAiChunk, OpenAiCompatProvider, OpenAiStream, OpenAiUsage, PromptTokensDetails,
};
use lex_code::provider::openai_types::{self, OpenAiParams};
use lex_code::provider::sse::{parse, RawSseEvent};
use lex_code::provider::throttle::MAX_CONCURRENT_STREAMS;
use lex_code::provider::{
    after_response, is_retryable_status, provider_error_message, status_hint, truncate_body,
    ProviderEvent, RequestContext, Retries, RetryStep, MAX_RETRIES,
};
use lex_code::tools::ToolDefinition;
use serde_json::Value;

fn json(s: &str) -> Json {
    match Json::parse(s) {
        Ok(j) => j,
        Err(e) => panic!("{e}"),
    }
}

fn data_of(e: &RawSseEvent) -> &str {
    &e.data
}

// ---- server-sent events ----

#[test]
fn parses_event_and_data() {
    let (evs, rest) = parse("event: content_block_delta\ndata: {\"a\":1}\n\n");
    assert_eq!(evs.len(), 1);
    assert_eq!(evs[0].event.as_deref(), Some("content_block_delta"));
    assert_eq!(data_of(&evs[0]), r#"{"a":1}"#);
    assert!(rest.is_empty());
}

#[test]
fn keeps_incomplete_tail_as_remainder() {
    let (evs, rest) = parse("event: a\ndata: one\n\nevent: b\ndata: tw");
    assert_eq!(evs.len(), 1);
    assert_eq!(rest, "event: b\ndata: tw");
    let (evs2, rest2) = parse(&format!("{rest}o\n\n"));
    assert_eq!(evs2.len(), 1);
    assert_eq!(data_of(&evs2[0]), "two");
    assert!(rest2.is_empty());
}

#[test]
fn tolerates_crlf_and_comments() {
    let (evs, _) = parse(": ping\r\nevent: x\r\ndata: 1\r\n\r\n");
    assert_eq!(evs.len(), 1);
    assert_eq!(data_of(&evs[0]), "1");
}

#[test]
fn multi_line_data_joins_with_newline() {
    let (evs, _) = parse("data: l1\ndata: l2\n\n");
    assert_eq!(data_of(&evs[0]), "l1\nl2");
}

#[test]
fn only_an_ended_blank_line_closes_an_event() {
    let (evs, rest) = parse("event: a\n");
    assert!(evs.is_empty());
    assert_eq!(rest, "event: a\n");
    let (evs, rest) = parse(&format!("{rest}data: one\n\n"));
    assert_eq!(evs, vec![RawSseEvent { event: Some("a".to_string()), data: "one".to_string() }]);
    assert_eq!(rest, "");
    let (evs, rest) = parse("\n\ndata: a\r\ndata: b\r");
    assert!(evs.is_empty());
    assert_eq!(rest, "data: a\ndata: b\r");
    assert_eq!(parse("data: a\r\r\n").1, "data: a\r\r\n");
}

/// All of the events of a text that arrives in two pieces, and what is left over.
fn parse_cut(s: &str, at: usize) -> (Vec<RawSseEvent>, String) {
    let (mut evs, rest) = parse(&s[..at]);
    let (more, rest) = parse(&format!("{rest}{}", &s[at..]));
    evs.extend(more);
    (evs, rest)
}

#[test]
fn a_text_may_be_cut_anywhere() {
    for s in [
        "event: a\ndata: l1\ndata: l2\n\ndata: x\n\n: c\n\ndata: open\n",
        "event: a\r\ndata: l1\r\ndata: l2\r\n\r\ndata: y\rz\r\r\n\r\ndata: open\r",
    ] {
        for at in 0..=s.len() {
            assert_eq!(parse_cut(s, at), parse(s), "{at}");
        }
    }
}

#[test]
fn line_ends_make_no_difference() {
    for s in ["event: a\ndata: 1\ndata: 2\n\ndata: 3\nda", "\n\n", "data: x\n\n", ""] {
        assert_eq!(parse(&s.replace('\n', "\r\n")), parse(s));
    }
}

#[test]
fn incomplete_characters_wait() {
    let bytes = "a好".as_bytes();
    assert_eq!(valid_prefix(bytes), ("a好".to_string(), 4));
    assert_eq!(valid_prefix(&bytes[..3]), ("a".to_string(), 1));
    assert_eq!(valid_prefix(&bytes[..0]), (String::new(), 0));
    let mut b = EventBuffer::new();
    assert!(b.feed("data: 好".as_bytes()[..7].as_ref()).is_empty());
    assert_eq!(b.pending_len(), 7);
    let evs = b.feed(&"data: 好\n\n".as_bytes()[7..]);
    assert_eq!(evs.len(), 1);
    assert_eq!(evs[0].data, "好");
    assert_eq!(b.pending_len(), 0);
}

// ---- one wire format ----

fn text_sse(text: &str) -> String {
    format!(
        "event: message_start\ndata: {{\"type\":\"message_start\",\"message\":{{\"usage\":{{\"input_tokens\":10,\"output_tokens\":1}}}}}}\n\n\
         event: content_block_start\ndata: {{\"type\":\"content_block_start\",\"index\":0,\"content_block\":{{\"type\":\"text\",\"text\":\"\"}}}}\n\n\
         event: content_block_delta\ndata: {{\"type\":\"content_block_delta\",\"index\":0,\"delta\":{{\"type\":\"text_delta\",\"text\":\"{text}\"}}}}\n\n\
         event: content_block_stop\ndata: {{\"type\":\"content_block_stop\",\"index\":0}}\n\n\
         event: message_delta\ndata: {{\"type\":\"message_delta\",\"delta\":{{\"stop_reason\":\"end_turn\"}},\"usage\":{{\"output_tokens\":7}}}}\n\n\
         event: message_stop\ndata: {{\"type\":\"message_stop\"}}\n\n"
    )
}

fn tool_sse() -> &'static str {
    "event: content_block_start\ndata: {\"type\":\"content_block_start\",\"index\":0,\"content_block\":{\"type\":\"tool_use\",\"id\":\"tu1\",\"name\":\"file_read\",\"input\":{}}}\n\n\
     event: content_block_delta\ndata: {\"type\":\"content_block_delta\",\"index\":0,\"delta\":{\"type\":\"input_json_delta\",\"partial_json\":\"{\\\"path\\\":\"}}\n\n\
     event: content_block_delta\ndata: {\"type\":\"content_block_delta\",\"index\":0,\"delta\":{\"type\":\"input_json_delta\",\"partial_json\":\"\\\"a.txt\\\"}\"}}\n\n\
     event: content_block_stop\ndata: {\"type\":\"content_block_stop\",\"index\":0}\n\n\
     event: message_delta\ndata: {\"type\":\"message_delta\",\"delta\":{\"stop_reason\":\"tool_use\"},\"usage\":{\"output_tokens\":20}}\n\n\
     event: message_stop\ndata: {\"type\":\"message_stop\"}\n\n"
}

fn member(v: &Value, key: &str) -> Option<Json> {
    v.get(key).filter(|m| !m.is_null()).map(Json::from_value)
}

fn read_frame(data: &str) -> Result<SseFrame, String> {
    let v: Value = serde_json::from_str(data).map_err(|e| e.to_string())?;
    Ok(SseFrame {
        kind: v["type"].as_str().ok_or("missing field `type`")?.to_string(),
        index: v["index"].as_u64(),
        delta: member(&v, "delta"),
        content_block: member(&v, "content_block"),
        message: member(&v, "message"),
        usage: member(&v, "usage"),
        error: member(&v, "error"),
    })
}

fn read_usage(u: &Value) -> OpenAiUsage {
    let count = |key: &str| u[key].as_u64().unwrap_or(0);
    OpenAiUsage {
        prompt_tokens: count("prompt_tokens"),
        completion_tokens: count("completion_tokens"),
        prompt_cache_hit_tokens: count("prompt_cache_hit_tokens"),
        prompt_cache_miss_tokens: count("prompt_cache_miss_tokens"),
        prompt_tokens_details: u.get("prompt_tokens_details").map(|d| PromptTokensDetails {
            cached_tokens: d["cached_tokens"].as_u64().unwrap_or(0),
        }),
    }
}

fn read_chunk(data: &str) -> Result<OpenAiChunk, String> {
    let v: Value = serde_json::from_str(data).map_err(|e| e.to_string())?;
    let choices = v["choices"].as_array().cloned().unwrap_or_default();
    Ok(OpenAiChunk {
        choices: choices
            .iter()
            .map(|c| OpenAiChoice {
                delta: Json::from_value(&c["delta"]),
                finish_reason: c["finish_reason"].as_str().map(str::to_string),
            })
            .collect(),
        usage: v.get("usage").map(read_usage),
        error: member(&v, "error"),
    })
}

/// What a stream gives when it arrives in pieces of `size` bytes.
fn anthropic_events(body: &str, size: usize) -> (Vec<ProviderEvent>, Option<LexError>) {
    let mut s = AnthropicStream::new();
    let mut all = Vec::new();
    for c in body.as_bytes().chunks(size) {
        let items = s.feed(c).into_iter().map(|d| (d.clone(), read_frame(&d))).collect();
        let fed = s.take(&items);
        all.extend(fed.events);
        if fed.error.is_some() {
            return (all, fed.error);
        }
    }
    let (last, rest) = s.finish();
    assert_eq!(rest, 0);
    all.push(last);
    (all, None)
}

fn openai_events(body: &str, size: usize) -> (Vec<ProviderEvent>, Option<LexError>) {
    let mut s = OpenAiStream::new();
    let mut all = Vec::new();
    for c in body.as_bytes().chunks(size) {
        let items = s.feed(c).into_iter().map(|d| (d.clone(), read_chunk(&d))).collect();
        let fed = s.take(&items);
        all.extend(fed.events);
        if fed.error.is_some() {
            return (all, fed.error);
        }
        if fed.done {
            break;
        }
    }
    let (last, _) = s.finish();
    all.push(last);
    (all, None)
}

fn frame(kind: &str) -> SseFrame {
    SseFrame {
        kind: kind.to_string(),
        index: None,
        delta: None,
        content_block: None,
        message: None,
        usage: None,
        error: None,
    }
}

#[test]
fn frames_are_taken_as_they_were_read() {
    let mut s = AnthropicStream::new();
    assert_eq!(s.feed(b"data: a\n\ndata: \n\nda"), vec!["a".to_string(), String::new()]);
    assert_eq!(s.finish().1, 2);
    let why = "missing field `type` at line 1 column 2".to_string();
    let fed = s.take(&vec![
        (String::new(), Err("not read".to_string())),
        ("{}".to_string(), Ok(frame("ping"))),
        ("{}".to_string(), Err(why)),
        ("{}".to_string(), Ok(frame("error"))),
    ]);
    assert!(fed.events.is_empty() && !fed.done);
    let told = "无法解析 SSE 数据: missing field `type` at line 1 column 2: {}";
    assert_eq!(fed.error, Some(LexError::Provider(told.to_string())));
    let fed = s.take(&vec![("{}".to_string(), Ok(frame("error")))]);
    assert_eq!(fed.error, Some(LexError::Provider("未知 provider 错误".to_string())));
    let mut start = frame("content_block_start");
    start.content_block = Some(json(r#"{"type":"tool_use","id":"t","name":"n"}"#));
    let mut stop = frame("content_block_stop");
    stop.index = Some(0);
    let fed = s.take(&vec![("-".to_string(), Ok(start)), ("-".to_string(), Ok(stop))]);
    assert_eq!(
        fed.events[1],
        ProviderEvent::ToolUseComplete {
            id: "t".to_string(),
            name: "n".to_string(),
            input: json("{}")
        }
    );
}

#[test]
fn chunks_are_taken_as_they_were_read() {
    let mut s = OpenAiStream::new();
    assert_eq!(s.feed(b"data:  [DONE] \n\ndata: x\n\n"), vec!["[DONE]".to_string(), "x".to_string()]);
    let empty = || OpenAiChunk { choices: Vec::new(), usage: None, error: None };
    let fed = s.take(&vec![
        ("{}".to_string(), Ok(empty())),
        ("[DONE]".to_string(), Err("not read".to_string())),
        ("x".to_string(), Err("never met".to_string())),
    ]);
    assert!(fed.done && fed.error.is_none() && fed.events.is_empty());
    let fed = s.take(&vec![("x".to_string(), Err("expected value".to_string()))]);
    let told = "无法解析 SSE 数据: expected value: x";
    assert_eq!(fed.error, Some(LexError::Provider(told.to_string())));
    let bad = OpenAiChunk { error: Some(json(r#"{"code":1}"#)), ..empty() };
    let fed = s.take(&vec![("-".to_string(), Ok(bad))]);
    assert_eq!(fed.error, Some(LexError::Provider(r#"{"code":1}"#.to_string())));
}

#[test]
fn streams_text_events_and_usage() {
    let (events, err) = anthropic_events(&text_sse("你好"), 4096);
    assert!(err.is_none());
    assert_eq!(events[0], ProviderEvent::TextDelta("你好".to_string()));
    match events.last().unwrap() {
        ProviderEvent::Completed { usage } => {
            assert_eq!(*usage, Usage { input_tokens: 10, output_tokens: 7, ..Usage::default() })
        }
        other => panic!("{other:?}"),
    }
}

#[test]
fn accumulates_tool_use_json_across_deltas() {
    let (events, _) = anthropic_events(tool_sse(), 4096);
    assert!(events.iter().any(
        |e| matches!(e, ProviderEvent::ToolUseStart { id, name } if id == "tu1" && name == "file_read")
    ));
    let found = events.iter().find_map(|e| match e {
        ProviderEvent::ToolUseComplete { id, input, .. } => Some((id.clone(), input.clone())),
        _ => None,
    });
    let (id, input) = found.unwrap();
    assert_eq!(id, "tu1");
    assert_eq!(input, json(r#"{"path":"a.txt"}"#));
}

#[test]
fn sse_error_event_yields_err() {
    let body = "event: error\ndata: {\"type\":\"error\",\"error\":{\"type\":\"invalid_request_error\",\"message\":\"bad\"}}\n\n";
    let (_, err) = anthropic_events(body, 4096);
    assert_eq!(err, Some(LexError::Provider("bad".to_string())));
}

#[test]
fn unreadable_frames_are_errors() {
    let (_, err) = anthropic_events("data: {not json\n\n", 4096);
    assert!(err.unwrap().to_string().contains("无法解析 SSE 数据"));
    let (_, err) = openai_events("data: {not json\n\n", 4096);
    assert!(err.unwrap().to_string().contains("无法解析 SSE 数据"));
    let bad_input = "data: {\"type\":\"content_block_start\",\"index\":0,\"content_block\":{\"type\":\"tool_use\",\"id\":\"t\",\"name\":\"n\"}}\n\n\
                     data: {\"type\":\"content_block_delta\",\"index\":0,\"delta\":{\"type\":\"input_json_delta\",\"partial_json\":\"{\"}}\n\n\
                     data: {\"type\":\"content_block_stop\",\"index\":0}\n\n";
    let (events, err) = anthropic_events(bad_input, 4096);
    assert_eq!(events.len(), 2);
    assert!(err.unwrap().to_string().contains("tool_use JSON 不完整"));
}

#[test]
fn no_duplicate_events_across_chunk_sizes() {
    let body = format!("{}{}", tool_sse(), text_sse("你好,世界"));
    let (whole, _) = anthropic_events(&body, body.len());
    for size in 1..200 {
        let (events, err) = anthropic_events(&body, size);
        assert!(err.is_none(), "size {size}");
        assert_eq!(events, whole, "size {size}");
    }
    for size in [256usize, 1024, 4096] {
        assert_eq!(anthropic_events(&body, size).0, whole);
    }
    let starts = whole.iter().filter(|e| matches!(e, ProviderEvent::ToolUseStart { .. })).count();
    assert_eq!(starts, 1);
    let crlf = body.replace('\n', "\r\n");
    for size in 1..100 {
        assert_eq!(anthropic_events(&crlf, size).0, whole, "size {size}");
    }
}

// ---- the other wire format ----

fn chunk(delta: &str, finish: Option<&str>, usage: bool) -> String {
    let usage_part = if usage { r#","usage":{"prompt_tokens":12,"completion_tokens":34}"# } else { "" };
    let finish_part = match finish {
        Some(f) => format!(r#","finish_reason":"{f}""#),
        None => r#","finish_reason":null"#.to_string(),
    };
    format!("data: {{\"choices\":[{{\"delta\":{delta}{finish_part}}}],\"id\":\"c1\"{usage_part}}}\n\n")
}

#[test]
fn streams_text_thinking_and_usage() {
    let body = format!(
        "{}{}{}{}{}data: [DONE]\n\n",
        chunk(r#"{"role":"assistant"}"#, None, false),
        chunk(r#"{"reasoning_content":"先想一下"}"#, None, false),
        chunk(r#"{"content":"你"}"#, None, false),
        chunk(r#"{"content":"好"}"#, None, false),
        chunk("{}", Some("stop"), true),
    );
    let (events, _) = openai_events(&body, 4096);
    assert!(events.contains(&ProviderEvent::ThinkingDelta("先想一下".to_string())));
    assert!(events.contains(&ProviderEvent::TextDelta("你".to_string())));
    assert!(events.contains(&ProviderEvent::TextDelta("好".to_string())));
    match events.last().unwrap() {
        ProviderEvent::Completed { usage } => {
            assert_eq!(*usage, Usage { input_tokens: 12, output_tokens: 34, ..Usage::default() })
        }
        other => panic!("{other:?}"),
    }
}

fn tool_calls_body() -> String {
    format!(
        "{}{}{}{}data: [DONE]\n\n",
        chunk(
            r#"{"tool_calls":[{"index":0,"id":"call_1","type":"function","function":{"name":"file_read","arguments":""}}]}"#,
            None,
            false
        ),
        chunk(r#"{"tool_calls":[{"index":0,"function":{"arguments":"{\"path\":"}}]}"#, None, false),
        chunk(r#"{"tool_calls":[{"index":0,"function":{"arguments":"\"a.txt\"}"}}]}"#, None, false),
        chunk(r#"{}"#, Some("tool_calls"), true),
    )
}

#[test]
fn accumulates_tool_calls_across_deltas() {
    let (events, _) = openai_events(&tool_calls_body(), 4096);
    assert!(events.iter().any(
        |e| matches!(e, ProviderEvent::ToolUseStart { id, name } if id == "call_1" && name == "file_read")
    ));
    assert!(events.iter().any(
        |e| matches!(e, ProviderEvent::ToolUseDelta { partial_json, .. } if partial_json == "{\"path\":")
    ));
    let found = events.iter().find_map(|e| match e {
        ProviderEvent::ToolUseComplete { id, input, .. } => Some((id.clone(), input.clone())),
        _ => None,
    });
    let (id, input) = found.unwrap();
    assert_eq!(id, "call_1");
    assert_eq!(input, json(r#"{"path":"a.txt"}"#));
}

#[test]
fn handles_chunk_split_arbitrarily() {
    let body = format!(
        "{}{}data: [DONE]\n\n",
        chunk(r#"{"content":"你好,世界"}"#, None, false),
        chunk("{}", Some("stop"), true),
    );
    for size in 1..body.len() {
        let (events, _) = openai_events(&body, size);
        let text: String = events
            .iter()
            .filter_map(|e| match e {
                ProviderEvent::TextDelta(t) => Some(t.as_str()),
                _ => None,
            })
            .collect();
        assert_eq!(text, "你好,世界", "size {size}");
    }
    let (whole, _) = openai_events(&tool_calls_body(), 1 << 20);
    for size in 1..150 {
        assert_eq!(openai_events(&tool_calls_body(), size).0, whole, "size {size}");
    }
}

#[test]
fn error_chunk_yields_err() {
    let body = "data: {\"error\":{\"message\":\"Insufficient Balance\",\"type\":\"invalid_request_error\"}}\n\ndata: [DONE]\n\n";
    let (_, err) = openai_events(body, 4096);
    assert_eq!(err, Some(LexError::Provider("Insufficient Balance".to_string())));
}

#[test]
fn collects_cache_hit_tokens_from_usage() {
    let body = "data: {\"choices\":[{\"delta\":{},\"finish_reason\":\"stop\"}],\"usage\":{\"prompt_tokens\":100,\"completion_tokens\":10,\"prompt_cache_hit_tokens\":80,\"prompt_cache_miss_tokens\":20}}\n\ndata: [DONE]\n\n";
    let (events, _) = openai_events(body, 4096);
    match events.last().unwrap() {
        ProviderEvent::Completed { usage } => {
            assert_eq!(usage.input_tokens, 100);
            assert_eq!(usage.output_tokens, 10);
            assert_eq!(usage.cache_hit_tokens, 80);
            assert_eq!(usage.cache_miss_tokens, 20);
        }
        other => panic!("{other:?}"),
    }
}

#[test]
fn collects_cache_hit_via_openai_style_details() {
    let body = "data: {\"choices\":[{\"delta\":{},\"finish_reason\":\"stop\"}],\"usage\":{\"prompt_tokens\":100,\"completion_tokens\":10,\"prompt_tokens_details\":{\"cached_tokens\":77}}}\n\ndata: [DONE]\n\n";
    let (events, _) = openai_events(body, 4096);
    match events.last().unwrap() {
        ProviderEvent::Completed { usage } => assert_eq!(usage.cache_hit_tokens, 77),
        other => panic!("{other:?}"),
    }
}

#[test]
fn keep_alive_comment_lines_are_ignored() {
    let body = ": keep-alive\n\ndata: {\"choices\":[{\"delta\":{\"content\":\"好\"},\"finish_reason\":null}]}\n\n: keep-alive\n\ndata: {\"choices\":[{\"delta\":{},\"finish_reason\":\"stop\"}]}\n\ndata: [DONE]\n\n";
    let (events, _) = openai_events(body, 4096);
    assert!(events.iter().any(|e| matches!(e, ProviderEvent::TextDelta(t) if t == "好")));
    assert!(matches!(events.last().unwrap(), ProviderEvent::Completed { .. }));
}

#[test]
fn calls_in_progress_are_kept_by_index() {
    let acc = |id: &str| ToolAcc { id: id.to_string(), name: "n".to_string(), json: String::new() };
    let mut t = CallTable::new();
    assert!(t.is_empty());
    t.insert(7, acc("b"));
    t.insert(1, acc("a"));
    assert!(t.contains(7) && !t.contains(2));
    assert_eq!(t.extend(7, "{}"), Some("b".to_string()));
    assert_eq!(t.extend(2, "{}"), None);
    t.rename(7, "m");
    let first = t.pop_first().unwrap();
    assert_eq!(first.id, "a");
    let second = t.remove(7).unwrap();
    assert_eq!((second.name.as_str(), second.json.as_str()), ("m", "{}"));
    assert!(t.remove(7).is_none() && t.pop_first().is_none());
}

// ---- failures ----

#[test]
fn retries_on_503_then_succeeds() {
    assert!(matches!(after_response(0, 503, ""), RetryStep::Again { .. }));
    assert!(matches!(after_response(1, 200, ""), RetryStep::Accept));
    assert!(is_retryable_status(429) && is_retryable_status(500) && is_retryable_status(503));
    match after_response(2, 503, "") {
        RetryStep::Fail(e) => assert!(e.to_string().contains("503")),
        other => panic!("{other:?}"),
    }
}

/// How often a request is sent when these are the statuses it meets, and how long it waits.
fn sent(statuses: &[u16]) -> (usize, Vec<u64>) {
    let mut retries = Retries::new();
    let mut waits = Vec::new();
    for (i, status) in statuses.iter().enumerate() {
        match retries.take_response(*status, "") {
            RetryStep::Again { wait_secs } => waits.push(wait_secs),
            _ => return (i + 1, waits),
        }
        assert_eq!(retries.made as usize, i + 1);
    }
    (statuses.len(), waits)
}

#[test]
fn requests_are_sent_three_times_at_most() {
    assert_eq!(MAX_RETRIES, 2);
    assert_eq!(sent(&[503, 429, 500, 503, 503]), (3, vec![1, 3]));
    assert_eq!(sent(&[503, 200, 503]), (2, vec![1]));
    assert_eq!(sent(&[401, 503]), (1, vec![]));
    assert_eq!(sent(&[200]), (1, vec![]));
    assert_eq!(sent(&[503]), (1, vec![1]));
}

#[test]
fn non_retryable_401_fails_immediately_with_hint() {
    match after_response(0, 401, "") {
        RetryStep::Fail(e) => {
            let msg = e.to_string();
            assert!(msg.contains("401") && msg.contains("认证失败"), "{msg}");
        }
        other => panic!("{other:?}"),
    }
    assert!(!is_retryable_status(401));
    assert!(!status_hint(402).is_empty());
}

#[test]
fn parses_deepseek_error_body_message() {
    let body = r#"{"error":{"message":"Insufficient Balance","type":"invalid_request_error","code":"402"}}"#;
    let msg = provider_error_message(402, body);
    assert!(msg.contains("余额不足") && msg.contains("Insufficient Balance"), "{msg}");
    assert!(!msg.contains("invalid_request_error"));
    let plain = provider_error_message(500, "oops");
    assert!(plain.contains("500") && plain.contains("oops"), "{plain}");
    let long = "x".repeat(600);
    assert!(truncate_body(&long).chars().count() < 600);
    assert_eq!(truncate_body("short"), "short");
    assert_eq!(MAX_CONCURRENT_STREAMS, 3);
}

// ---- requests ----

#[test]
fn anthropic_types_request_field_order_is_exact() {
    let req = anthropic_types::AnthropicRequest {
        model: "m".to_string(),
        max_tokens: 8,
        system: "sys".to_string(),
        tools: vec![],
        messages: vec![],
        stream: true,
    };
    assert_eq!(
        req.to_json().to_text(),
        r#"{"model":"m","max_tokens":8,"system":"sys","tools":[],"messages":[],"stream":true}"#
    );
}

#[test]
fn build_request_maps_blocks() {
    let ctx = RequestContext {
        system: "s".to_string(),
        tools: vec![],
        messages: vec![
            Message::user_text("read it"),
            Message::assistant(vec![
                Block::Text { text: "ok".to_string() },
                Block::ToolUse {
                    id: "t1".to_string(),
                    name: "file_read".to_string(),
                    input: json(r#"{"path":"a"}"#),
                },
            ]),
            Message::tool_results(vec![("t1", "content".to_string(), false)]),
        ],
    };
    let req = anthropic_types::build_request(&ctx, "model-x", 100);
    assert_eq!(req.messages.len(), 3);
    assert_eq!(req.messages[0].role, "user");
    assert_eq!(req.messages[1].role, "assistant");
    assert_eq!(req.messages[2].role, "user");
    let s = req.messages[1].to_json().to_text();
    assert!(s.contains(r#""type":"tool_use""#));
    let ctx2 = RequestContext {
        system: String::new(),
        tools: vec![],
        messages: vec![Message::assistant(vec![Block::Thinking { reasoning_content: "r".to_string() }])],
    };
    let req2 = anthropic_types::build_request(&ctx2, "m", 1);
    assert!(req2.messages.is_empty());
}

fn ctx_with(messages: Vec<Message>) -> RequestContext {
    RequestContext { system: "sys".to_string(), tools: vec![], messages }
}

#[test]
fn openai_types_request_field_order_is_exact() {
    let req = openai_types::build_request(&ctx_with(vec![Message::user_text("hi")]), "m", 8);
    assert_eq!(
        req.to_json().to_text(),
        r#"{"model":"m","messages":[{"role":"system","content":"sys"},{"role":"user","content":"hi"}],"tools":[],"stream":true,"stream_options":{"include_usage":true},"max_tokens":8}"#
    );
}

#[test]
fn tools_map_to_function_format() {
    let ctx = RequestContext {
        system: String::new(),
        tools: vec![ToolDefinition {
            name: "file_read".to_string(),
            description: "读文件".to_string(),
            input_schema: json(r#"{"type":"object"}"#),
        }],
        messages: vec![],
    };
    let req = openai_types::build_request(&ctx, "m", 1);
    assert_eq!(
        req.tools[0].to_json().to_text(),
        r#"{"type":"function","function":{"name":"file_read","description":"读文件","parameters":{"type":"object"}}}"#
    );
}

#[test]
fn reasoning_content_is_passed_back_with_tool_calls() {
    let ctx = ctx_with(vec![
        Message::user_text("read it"),
        Message::assistant(vec![
            Block::Thinking { reasoning_content: "需要先读文件".to_string() },
            Block::Text { text: "好的".to_string() },
            Block::ToolUse {
                id: "t1".to_string(),
                name: "file_read".to_string(),
                input: json(r#"{"path":"a.rs"}"#),
            },
        ]),
        Message::tool_results(vec![("t1", "content".to_string(), false)]),
    ]);
    let req = openai_types::build_request(&ctx, "m", 1);
    assert_eq!(req.messages.len(), 4);
    assert_eq!(
        req.messages[2].to_json().to_text(),
        r#"{"role":"assistant","content":"好的","reasoning_content":"需要先读文件","tool_calls":[{"id":"t1","type":"function","function":{"name":"file_read","arguments":"{\"path\":\"a.rs\"}"}}]}"#
    );
    assert_eq!(
        req.messages[3].to_json().to_text(),
        r#"{"role":"tool","content":"content","tool_call_id":"t1"}"#
    );
}

#[test]
fn tool_result_error_is_marked_in_content() {
    let ctx = ctx_with(vec![Message {
        role: Role::User,
        content: vec![Block::ToolResult {
            tool_use_id: "t1".to_string(),
            content: "boom".to_string(),
            is_error: true,
        }],
    }]);
    let req = openai_types::build_request(&ctx, "m", 1);
    assert_eq!(
        req.messages[1].to_json().to_text(),
        r#"{"role":"tool","content":"[工具执行失败] boom","tool_call_id":"t1"}"#
    );
}

#[test]
fn mixed_user_message_splits_tool_and_text() {
    let ctx = ctx_with(vec![Message {
        role: Role::User,
        content: vec![
            Block::ToolResult { tool_use_id: "t1".to_string(), content: "r".to_string(), is_error: false },
            Block::Text { text: "继续".to_string() },
        ],
    }]);
    let req = openai_types::build_request(&ctx, "m", 1);
    assert_eq!(req.messages.len(), 3);
    assert_eq!(req.messages[1].role, "tool");
    assert_eq!(req.messages[2].role, "user");
    assert_eq!(req.messages[2].content.as_deref(), Some("继续"));
}

#[test]
fn empty_system_is_skipped() {
    let ctx = RequestContext {
        system: String::new(),
        tools: vec![],
        messages: vec![Message::user_text("hi")],
    };
    let req = openai_types::build_request(&ctx, "m", 1);
    assert_eq!(req.messages.len(), 1);
    assert_eq!(req.messages[0].role, "user");
}

#[test]
fn requests_go_to_the_endpoint_with_the_key() {
    let a = AnthropicProvider::new("http://h/".to_string(), "m".to_string(), 8, "k".to_string());
    let r = a.request(&ctx_with(vec![Message::user_text("hi")]));
    assert_eq!(r.url, "http://h/v1/messages");
    assert!(r.headers.iter().any(|(k, v)| k == "x-api-key" && v == "k"));
    assert!(r.headers.iter().any(|(k, v)| k == "anthropic-version" && v == "2023-06-01"));
    assert!(r.body.starts_with(r#"{"model":"m","max_tokens":8,"system":"sys""#));

    let params = OpenAiParams {
        thinking: Some("enabled".to_string()),
        user_id: Some("u".to_string()),
        ..OpenAiParams::default()
    };
    let o = OpenAiCompatProvider::new("http://h".to_string(), "m".to_string(), params, "k".to_string());
    let r = o.request(&ctx_with(vec![]));
    assert_eq!(r.url, "http://h/chat/completions");
    assert!(r.headers.iter().any(|(_, v)| v == "Bearer k"));
    assert!(r.body.contains(r#""thinking":{"type":"enabled"}"#), "{}", r.body);
    assert!(r.body.ends_with(r#""user_id":"u"}"#), "{}", r.body);
}

// ---- the watch on the cached prefix ----

fn ctx(system: &str, messages: Vec<Message>) -> RequestContext {
    RequestContext { system: system.to_string(), tools: vec![], messages }
}

fn turn1() -> Vec<Message> {
    vec![Message::user_text("第一轮")]
}

fn appended() -> Vec<Message> {
    vec![
        Message::user_text("第一轮"),
        Message::assistant(vec![Block::Text { text: "回复".to_string() }]),
        Message::user_text("第二轮"),
    ]
}

#[test]
fn pure_append_passes_without_violation() {
    let mut s = ImplicitPrefixCacheStrategy::new();
    s.prepare(&ctx("sys", turn1()));
    s.prepare(&ctx("sys", appended()));
    assert_eq!(s.violations(), 0);
}

#[test]
fn system_change_is_violation() {
    let mut s = ImplicitPrefixCacheStrategy::new();
    s.prepare(&ctx("sys", turn1()));
    let report = s.prepare(&ctx("sys2", appended()));
    assert_eq!(s.violations(), 1);
    assert!(report.system_changed && !report.tools_changed && !report.history_rewritten);
}

#[test]
fn tools_change_is_violation() {
    let mut s = ImplicitPrefixCacheStrategy::new();
    s.prepare(&ctx("sys", turn1()));
    let mut with_tool = ctx("sys", appended());
    with_tool.tools = vec![ToolDefinition {
        name: "file_read".to_string(),
        description: "d".to_string(),
        input_schema: json(r#"{"type":"object"}"#),
    }];
    s.prepare(&with_tool);
    assert_eq!(s.violations(), 1);
}

#[test]
fn history_rewrite_is_violation() {
    let mut s = ImplicitPrefixCacheStrategy::new();
    s.prepare(&ctx("sys", turn1()));
    let rewritten = vec![
        Message::user_text("第一轮(被改写)"),
        Message::assistant(vec![Block::Text { text: "回复".to_string() }]),
    ];
    s.prepare(&ctx("sys", rewritten));
    assert_eq!(s.violations(), 1);
}

#[test]
fn shorter_history_is_rewrite_violation() {
    let mut s = ImplicitPrefixCacheStrategy::new();
    s.prepare(&ctx("sys", appended()));
    s.prepare(&ctx("sys", turn1()));
    assert_eq!(s.violations(), 1);
}

#[test]
fn invalidate_resets_baseline() {
    let mut s = ImplicitPrefixCacheStrategy::new();
    s.prepare(&ctx("sys", turn1()));
    s.invalidate();
    assert_eq!(s.invalidations(), 1);
    s.prepare(&ctx("sys", turn1()));
    assert_eq!(s.violations(), 0);
    s.prepare(&ctx("sys", appended()));
    assert_eq!(s.violations(), 0);
}

#[test]
fn first_prepare_never_violates() {
    let mut s = ImplicitPrefixCacheStrategy::new();
    s.prepare(&ctx("sys", turn1()));
    assert_eq!(s.violations(), 0);
}

#[test]
fn observe_ignores_missing_cache_fields() {
    let s = ImplicitPrefixCacheStrategy::new();
    assert_eq!(s.observe(&Usage::default()), None);
    let usage = Usage { cache_hit_tokens: 3, cache_miss_tokens: 1, ..Usage::default() };
    assert_eq!(s.observe(&usage), Some((3, 1)));
}
