use gpt2cursor::bridge::{
    append_log, base_url, decrement_active, failure_text, format_log_timestamp, increment_active,
    is_authorized, normalize_route, parse_request_head, record_success, truncate_log_text,
    sse_frame, Headers, ReadStep, RequestReader, Route, UsageSnapshot, MAX_BODY_BYTES,
    MAX_RECENT_LOGS,
};
use gpt2cursor::chat::parse_chat_request;
use gpt2cursor::codex::{
    codex_models_from_catalog, keepalive_due, parse_codex_models, probe_codex_status,
    run_timed_out, timeout_message, trim_messages_for_codex,
    truncate_for_error, truncate_message_content, ChatMessage, CodexResult, CodexStreamState,
    TokenUsage,
};
use gpt2cursor::handler::{
    finish_chat, is_client_disconnected, log_stream_end, plan_body_too_large, plan_chat,
    plan_stream_close, stream_close_result, try_plan_chat, StreamClose,
    plan_request, plan_stream_event, ChatPlan, CodexStreamEvent, RequestPlan, StreamEnd,
};
use gpt2cursor::json::Json;
use gpt2cursor::launch::{escape_xml, launch_agent_path, set_launch_at_login, LaunchAgentChange};
use gpt2cursor::ngrok::{
    authtoken_to_configure, http_response_body, ngrok_http_args, plan_tunnel_start,
    refresh_outcome, to_openai_base_url, TunnelStart,
};
use gpt2cursor::panel::{api_key_from_bytes, port_validation, to_hex};
use gpt2cursor::settings::{normalize_loaded_settings, AppSettings};

fn s(t: &str) -> Json {
    Json::Str(t.to_string())
}

fn obj(fields: Vec<(&str, Json)>) -> Json {
    Json::Object(fields.into_iter().map(|(k, v)| (k.to_string(), v)).collect())
}

fn msg(role: &str, content: &str) -> ChatMessage {
    ChatMessage { role: role.to_string(), content: content.to_string() }
}

fn keyed_settings() -> AppSettings {
    AppSettings { api_key: "secret".to_string(), ..AppSettings::default() }
}

#[test]
fn trimming_keeps_every_system_message_first() {
    let mut messages = vec![msg("system", "one"), msg("system", "two")];
    for index in 0..10 {
        messages.push(msg("user", &format!("u{index}")));
    }
    let (trimmed, original) = trim_messages_for_codex(&messages, 4);
    assert_eq!(original, 12);
    assert_eq!(trimmed.len(), 4);
    assert_eq!(trimmed[0].content, "one");
    assert_eq!(trimmed[1].content, "two");
    assert_eq!(trimmed[2].content, "u8");
    assert_eq!(trimmed[3].content, "u9");
}

#[test]
fn trimming_keeps_one_other_message_when_system_fills_the_limit() {
    let messages = vec![msg("system", "a"), msg("system", "b"), msg("user", "x"), msg("user", "y")];
    let (trimmed, _) = trim_messages_for_codex(&messages, 2);
    assert_eq!(trimmed.len(), 3);
    assert_eq!(trimmed[2].content, "y");
}

#[test]
fn trimming_leaves_a_fitting_history_alone() {
    let messages = vec![msg("user", "a"), msg("assistant", "b")];
    let (trimmed, original) = trim_messages_for_codex(&messages, 12);
    assert_eq!(original, 2);
    assert_eq!(trimmed.len(), 2);
    assert_eq!(trimmed[1].content, "b");
    let (none, zero) = trim_messages_for_codex(&[], 12);
    assert!(none.is_empty());
    assert_eq!(zero, 0);
}

#[test]
fn trimming_drops_old_messages_until_the_prompt_fits() {
    let big = "x".repeat(3_900);
    let messages: Vec<ChatMessage> = (0..20).map(|_| msg("assistant", &big)).collect();
    let (trimmed, _) = trim_messages_for_codex(&messages, 20);
    let prompt = gpt2cursor::codex::format_prompt(&trimmed);
    assert!(prompt.len() <= 32_000);
    assert!(trimmed.len() < 20 && !trimmed.is_empty());
}

#[test]
fn long_content_is_capped_with_a_note() {
    let content = "a".repeat(5_000);
    let capped = truncate_message_content(&content);
    assert_eq!(capped, format!("{}... [truncated 1000 chars]", "a".repeat(4_000)));
    assert_eq!(truncate_message_content("short"), "short");
}

#[test]
fn pre_trimming_keeps_system_messages_and_the_limit() {
    let mut messages = vec![obj(vec![("role", s("system")), ("content", s("rules"))])];
    for index in 0..30 {
        messages.push(obj(vec![("role", s("user")), ("content", Json::Str(format!("m{index}")))]));
    }
    let input = obj(vec![("messages", Json::Array(messages))]);
    let chat = parse_chat_request(&input, 16).unwrap();
    assert_eq!(chat.messages.len(), 16);
    assert_eq!(chat.messages[0].role, "system");
    assert_eq!(chat.messages[15].content, "m29");
    assert_eq!(chat.model, "gpt2cursor-local");
    assert!(!chat.stream);
}

#[test]
fn chat_request_errors() {
    let empty = obj(vec![("messages", Json::Array(vec![]))]);
    assert_eq!(
        parse_chat_request(&empty, 16).unwrap_err(),
        "messages must include at least one message"
    );
    let missing = obj(vec![("model", s("m"))]);
    assert_eq!(
        parse_chat_request(&missing, 16).unwrap_err(),
        "messages must include at least one message"
    );
    let blank = obj(vec![(
        "messages",
        Json::Array(vec![obj(vec![("role", s("user")), ("content", s("   "))])]),
    )]);
    assert_eq!(
        parse_chat_request(&blank, 16).unwrap_err(),
        "messages must include at least one message with text"
    );
}

#[test]
fn a_started_and_ended_request_restores_the_active_count() {
    let mut usage = UsageSnapshot::default();
    increment_active(&mut usage);
    assert_eq!(usage.active_requests, 1);
    decrement_active(&mut usage, 40, Some("boom".to_string()));
    assert_eq!(usage.active_requests, 0);
    assert_eq!(usage.request_count, 1);
    assert_eq!(usage.total_duration_ms, 40);
    assert_eq!(usage.last_error.as_deref(), Some("boom"));
    decrement_active(&mut usage, 2, Some(String::new()));
    assert_eq!(usage.active_requests, 0);
    assert_eq!(usage.last_error, None);
}

#[test]
fn successes_add_up_in_the_totals() {
    let mut usage = UsageSnapshot::default();
    let turn = TokenUsage { input_tokens: 10, cached_input_tokens: 2, output_tokens: 3, reasoning_output_tokens: 1 };
    record_success(&mut usage, &turn, 5);
    record_success(&mut usage, &turn, 7);
    assert_eq!(usage.total_usage.input_tokens, 20);
    assert_eq!(usage.total_usage.cached_input_tokens, 4);
    assert_eq!(usage.total_usage.output_tokens, 6);
    assert_eq!(usage.total_usage.reasoning_output_tokens, 2);
    assert_eq!(usage.last_duration_ms, 7);
    assert_eq!(usage.last_usage.output_tokens, 3);
}

#[test]
fn the_activity_log_keeps_its_newest_lines() {
    let mut usage = UsageSnapshot::default();
    for index in 0..45 {
        append_log(&mut usage, &format!("line {index}"), false, 3_661);
    }
    assert_eq!(usage.recent_logs.len(), MAX_RECENT_LOGS);
    assert_eq!(usage.recent_logs[0], "01:01:01 line 5");
    assert_eq!(usage.recent_logs[39], "01:01:01 line 44");
    for index in 0..100 {
        append_log(&mut usage, &format!("dev {index}"), true, 0);
    }
    assert_eq!(usage.recent_logs.len(), 140);
}

#[test]
fn log_lines_and_stamps_have_fixed_shapes() {
    assert_eq!(format_log_timestamp(86_399), "23:59:59");
    assert_eq!(format_log_timestamp(90_061), "01:01:01");
    assert_eq!(truncate_log_text("abcdef", 3), "abc... [truncated]");
    assert_eq!(truncate_log_text("héllo", 5), "héllo");
    assert_eq!(base_url(8787), "http://127.0.0.1:8787/v1");
}

#[test]
fn routes_ignore_query_and_trailing_slash() {
    assert_eq!(normalize_route("GET", "/v1/models?x=1"), Route::Models);
    assert_eq!(normalize_route("GET", "/v1/models/"), Route::Models);
    assert_eq!(normalize_route("GET", "/healthz"), Route::Healthz);
    assert_eq!(normalize_route("POST", "/chat/completions/"), Route::ChatCompletions);
    assert_eq!(normalize_route("GET", "/v1/chat/completions"), Route::NotFound);
    assert_eq!(Route::NotFound.label(), "404");
}

#[test]
fn only_the_exact_bearer_token_is_accepted() {
    let mut headers = Headers::new();
    assert!(!is_authorized(&headers, "secret"));
    headers.insert("authorization".to_string(), "Bearer secret2".to_string());
    assert!(!is_authorized(&headers, "secret"));
    headers.insert("authorization".to_string(), "bearer secret".to_string());
    assert!(!is_authorized(&headers, "secret"));
    headers.insert("authorization".to_string(), "Bearer secret".to_string());
    assert!(is_authorized(&headers, "secret"));
    assert_eq!(headers.get("authorization"), Some("Bearer secret"));
}

#[test]
fn request_heads_are_parsed_from_bytes() {
    let head = parse_request_head(b"POST /v1/chat/completions?x HTTP/1.1\r\nContent-Length: 12\r\n Authorization :  Bearer k \r\nbad line");
    assert_eq!(head.method, "POST");
    assert_eq!(head.path, "/v1/chat/completions?x");
    assert_eq!(head.content_length, 12);
    assert_eq!(head.headers.get("authorization"), Some("Bearer k"));
    let lossy = parse_request_head(b"GET /\xff HTTP/1.1");
    assert_eq!(lossy.path, "/\u{fffd}");
}

#[test]
fn a_request_arrives_in_pieces() {
    let reader = RequestReader::new();
    let reader = match reader.on_chunk(b"POST /v1/chat/completions HTTP/1.1\r\ncontent-") {
        ReadStep::More(next) => next,
        other => panic!("unexpected {other:?}"),
    };
    assert!(!reader.head_complete());
    let reader = match reader.on_chunk(b"length: 5\r\n\r\nab") {
        ReadStep::More(next) => next,
        other => panic!("unexpected {other:?}"),
    };
    assert!(reader.head_complete());
    match reader.on_chunk(b"cdefg") {
        ReadStep::Done(request) => {
            assert_eq!(request.body, b"abcde".to_vec());
            assert_eq!(request.head.method, "POST");
            assert_eq!(request.head.content_length, 5);
        }
        other => panic!("unexpected {other:?}"),
    }
}

#[test]
fn reading_fails_on_early_close_and_oversized_bodies() {
    match RequestReader::new().on_chunk(b"") {
        ReadStep::Failed(message) => assert_eq!(message, "Request ended before headers"),
        other => panic!("unexpected {other:?}"),
    }
    let reader = match RequestReader::new().on_chunk(b"POST / HTTP/1.1\r\ncontent-length: 10\r\n\r\nabc") {
        ReadStep::More(next) => next,
        other => panic!("unexpected {other:?}"),
    };
    match reader.on_chunk(b"") {
        ReadStep::Failed(message) => {
            assert_eq!(message, "Request body incomplete: received 3 of 10 bytes")
        }
        other => panic!("unexpected {other:?}"),
    }
    let too_long = format!("POST / HTTP/1.1\r\ncontent-length: {}\r\n\r\n", MAX_BODY_BYTES + 1);
    assert!(matches!(RequestReader::new().on_chunk(too_long.as_bytes()), ReadStep::TooLarge));
    match RequestReader::new().on_chunk(b"GET /healthz HTTP/1.1\r\n\r\n") {
        ReadStep::Done(request) => assert!(request.body.is_empty()),
        other => panic!("unexpected {other:?}"),
    }
}

#[test]
fn refused_and_simple_requests_are_answered_directly() {
    let settings = keyed_settings();
    let mut logs = Vec::new();
    let head = parse_request_head(b"GET /v1/models HTTP/1.1");
    match plan_request(&head, &settings, &mut logs) {
        RequestPlan::Respond { response, error } => {
            assert_eq!(response.status, 401);
            assert!(response.head.starts_with("HTTP/1.1 401 Unauthorized\r\n"));
            assert!(response.body.contains("authentication_error"));
            assert_eq!(error.as_deref(), Some("authentication failed"));
        }
        RequestPlan::Chat => panic!("expected a refusal"),
    }
    assert_eq!(logs[0].line, "GET /v1/models (models)");

    let head = parse_request_head(b"GET /v1/models HTTP/1.1\r\nauthorization: Bearer secret");
    match plan_request(&head, &settings, &mut logs) {
        RequestPlan::Respond { response, error } => {
            assert_eq!(response.status, 200);
            assert!(response.body.contains("gpt2cursor-local"));
            assert!(!response.body.contains("codex-local"));
            assert!(error.is_none());
        }
        RequestPlan::Chat => panic!("expected the models"),
    }
    let head = parse_request_head(b"GET /nope HTTP/1.1\r\nauthorization: Bearer secret");
    match plan_request(&head, &settings, &mut logs) {
        RequestPlan::Respond { response, .. } => {
            assert_eq!(response.status, 404);
            assert_eq!(response.body, "{\"error\":{\"message\":\"Route not found\",\"type\":\"not_found\"}}");
        }
        RequestPlan::Chat => panic!("expected 404"),
    }
    let head = parse_request_head(b"GET /healthz HTTP/1.1\r\nauthorization: Bearer secret");
    match plan_request(&head, &settings, &mut logs) {
        RequestPlan::Respond { response, .. } => assert_eq!(response.body, "{\"ok\":true}"),
        RequestPlan::Chat => panic!("expected health"),
    }
    let (response, hint) = plan_body_too_large(&mut logs);
    assert_eq!(response.status, 413);
    assert!(response.head.starts_with("HTTP/1.1 413 Payload Too Large"));
    assert!(response.body.contains("request_body_too_large"));
    assert!(hint.starts_with("Request body too large"));
}

#[test]
fn chat_plans_cover_bad_bodies_and_runs() {
    let settings = keyed_settings();
    let mut logs = Vec::new();
    match plan_chat(&settings, b"{", &mut logs) {
        ChatPlan::Respond { response, error } => {
            assert_eq!(response.status, 400);
            assert!(response.body.contains("invalid_request_error"));
            assert_eq!(error, "invalid json");
        }
        ChatPlan::Run { .. } => panic!("expected 400"),
    }
    match plan_chat(&settings, b"{\"model\":\"m\"}", &mut logs) {
        ChatPlan::Respond { response, error } => {
            assert_eq!(response.status, 400);
            assert!(response.body.contains("messages must include at least one message"));
            assert_eq!(error, "invalid chat request");
        }
        ChatPlan::Run { .. } => panic!("expected 400"),
    }
    let body = b"{\"messages\":[{\"role\":\"user\",\"content\":\"hello\"}]}";
    match plan_chat(&settings, body, &mut logs) {
        ChatPlan::Run { chat, prompt } => {
            assert_eq!(chat.messages.len(), 1);
            assert!(prompt.ends_with("Latest user message:\nhello"));
        }
        ChatPlan::Respond { .. } => panic!("expected a run"),
    }
}

#[test]
fn stream_deltas_rebuild_the_answer() {
    let mut state = CodexStreamState::new();
    let lines = [
        "{\"type\":\"agent_message\",\"text\":\"Hel\"}\n",
        "  {\"type\":\"agent_message\",\"text\":\"Hello\"}\r\n",
        "{\"usage\":{\"output_tokens\":3}}\n",
    ];
    let mut streamed = String::new();
    for line in lines {
        if let Some(delta) = state.on_line(line) {
            streamed.push_str(&delta);
        }
    }
    assert_eq!(state.on_line("not json\n"), None);
    assert_eq!(streamed, "Hello");
    let result = state.finish(true, 9).unwrap();
    assert_eq!(result.text, "Hello");
    assert_eq!(result.usage.output_tokens, 3);
    assert_eq!(result.duration_ms, 9);
    assert!(state.finish(false, 9).unwrap_err().starts_with("Codex CLI failed: "));
}

#[test]
fn codex_messages_have_fixed_wording() {
    assert_eq!(timeout_message(0), "Codex CLI request timed out after 1s");
    assert_eq!(timeout_message(300_000), "Codex CLI request timed out after 300s");
    assert_eq!(truncate_for_error("  ok  "), "ok");
    let long = "y".repeat(500);
    assert_eq!(truncate_for_error(&long), format!("{}...", "y".repeat(400)));
    let status = probe_codex_status(true, false, 7);
    assert_eq!(status.summary, "Codex CLI found; sign in required");
    assert!(!probe_codex_status(false, true, 7).authenticated);
}

#[test]
fn model_catalog_errors() {
    assert_eq!(
        codex_models_from_catalog(&obj(vec![])).unwrap_err(),
        "Codex model catalog is missing a models array"
    );
    assert_eq!(
        codex_models_from_catalog(&obj(vec![("models", Json::Array(vec![obj(vec![])]))])).unwrap_err(),
        "Codex model catalog is empty. Run `codex login` in Terminal, then try again."
    );
    let named = obj(vec![("models", Json::Array(vec![obj(vec![("name", s("n"))])]))]);
    let models = codex_models_from_catalog(&named).unwrap();
    assert_eq!(models[0].id, "n");
    assert_eq!(models[0].label, "n");
}

#[test]
fn escaped_values_hold_no_markup() {
    assert_eq!(escape_xml("a<b>&\"c\""), "a&lt;b&gt;&amp;&quot;c&quot;");
    let escaped = escape_xml("<<>>\"");
    assert!(!escaped.contains('<') && !escaped.contains('>') && !escaped.contains('"'));
}

#[test]
fn launch_agent_decisions() {
    assert_eq!(launch_agent_path(Some("/Users/me")).unwrap(), "/Users/me/Library/LaunchAgents/com.gpt2cursor.app.plist");
    assert_eq!(launch_agent_path(Some("/Users/me/")).unwrap(), "/Users/me/Library/LaunchAgents/com.gpt2cursor.app.plist");
    assert_eq!(launch_agent_path(None).unwrap_err(), "HOME is not set");
    assert_eq!(
        set_launch_at_login(true, false, Some("/h"), Ok("/a"), false).unwrap_err(),
        "Launch at login is only implemented for macOS"
    );
    match set_launch_at_login(true, true, Some("/h"), Ok("/Apps/g<2>c"), false).unwrap() {
        LaunchAgentChange::Write { path, contents } => {
            assert_eq!(path, "/h/Library/LaunchAgents/com.gpt2cursor.app.plist");
            assert!(contents.contains("<string>/Apps/g&lt;2&gt;c</string>"));
            assert!(contents.contains("<string>com.gpt2cursor.app</string>"));
        }
        other => panic!("unexpected {other:?}"),
    }
    assert_eq!(
        set_launch_at_login(true, true, Some("/h"), Err("gone"), false).unwrap_err(),
        "Unable to locate current executable: gone"
    );
    assert!(matches!(
        set_launch_at_login(false, true, Some("/h"), Ok("/a"), true).unwrap(),
        LaunchAgentChange::Remove { .. }
    ));
    assert!(matches!(
        set_launch_at_login(false, true, Some("/h"), Ok("/a"), false).unwrap(),
        LaunchAgentChange::Keep
    ));
}

#[test]
fn api_keys_are_hex_of_their_bytes() {
    assert_eq!(to_hex(&[0, 15, 16, 255]), "000f10ff");
    let key = api_key_from_bytes(&[0xab; 24]);
    assert_eq!(key.len(), 4 + 48);
    assert!(key.starts_with("g2c_abab"));
}

#[test]
fn port_checks() {
    let zero = port_validation(0, None, true);
    assert!(!zero.available);
    assert_eq!(zero.message, "Port must be between 1 and 65535");
    let running = port_validation(8787, Some(8787), false);
    assert!(running.available);
    assert_eq!(running.message, "Port is used by the running bridge");
    assert_eq!(port_validation(9000, Some(8787), false).message, "Port is already in use");
    assert_eq!(port_validation(9000, None, true).message, "Port is available");
}

#[test]
fn tunnel_decisions() {
    assert_eq!(authtoken_to_configure("  ", true).unwrap_err(), "ngrok authtoken is required");
    assert!(authtoken_to_configure("t", false).unwrap_err().starts_with("ngrok is not installed"));
    assert_eq!(authtoken_to_configure(" t ", true).unwrap(), "t");
    match plan_tunnel_start(Some("https://a/v1".to_string()), false, "", false).unwrap() {
        TunnelStart::Reuse(url) => assert_eq!(url, "https://a/v1"),
        other => panic!("unexpected {other:?}"),
    }
    match plan_tunnel_start(None, true, " tok ", false).unwrap() {
        TunnelStart::Launch { configure } => assert_eq!(configure.as_deref(), Some("tok")),
        other => panic!("unexpected {other:?}"),
    }
    assert!(plan_tunnel_start(None, true, "", false).unwrap_err().starts_with("ngrok authtoken is not configured"));
    assert!(matches!(plan_tunnel_start(None, true, "", true).unwrap(), TunnelStart::Launch { configure: None }));
    assert_eq!(ngrok_http_args(8787), vec!["http", "8787", "--log=stdout", "--log-format=json"]);
    assert_eq!(refresh_outcome(true, true, "u").unwrap_err(), "ngrok tunnel exited unexpectedly");
    assert!(refresh_outcome(true, false, "").is_ok());
    assert_eq!(refresh_outcome(false, false, "").unwrap_err(), "ngrok tunnel is no longer available");
    assert_eq!(to_openai_base_url("https://a.app///"), "https://a.app/v1");
    assert_eq!(
        http_response_body("HTTP/1.1 200 OK\r\nx: y\r\n\r\n{\"tunnels\":[]}").unwrap(),
        "{\"tunnels\":[]}"
    );
    assert_eq!(http_response_body("no blank line").unwrap_err(), "ngrok API response was empty");
}

#[test]
fn command_failures_report_stderr_or_a_fallback() {
    assert_eq!(failure_text(b"  bad token \n", "failed"), "bad token");
    assert_eq!(failure_text(b" \n", "failed"), "failed");
    assert_eq!(failure_text(b"x\xffy", "failed"), "x\u{fffd}y");
}

#[test]
fn settings_rules() {
    let mut settings = keyed_settings();
    assert!(settings.validate().is_ok());
    settings.port = 0;
    assert_eq!(settings.validate().unwrap_err(), "Port must be between 1 and 65535");
    let settings = AppSettings { codex_approval: "sometimes".to_string(), ..keyed_settings() };
    assert_eq!(
        settings.validate().unwrap_err(),
        "Codex approval must be one of: untrusted, on-request, never"
    );
    let settings = AppSettings { codex_timeout_ms: 999, ..keyed_settings() };
    assert_eq!(settings.validate().unwrap_err(), "Codex timeout must be at least 1000 ms");
    let settings = AppSettings { codex_max_messages: 0, ..keyed_settings() };
    assert_eq!(settings.validate().unwrap_err(), "Codex context must include at least 1 message");
}

#[test]
fn loaded_settings_are_repaired_once() {
    let raw = AppSettings {
        model: "other".to_string(),
        codex_timeout_ms: 60_000,
        codex_max_messages: 0,
        ..keyed_settings()
    };
    let once = normalize_loaded_settings(raw);
    assert_eq!(once.model, "gpt2cursor-local");
    assert_eq!(once.codex_timeout_ms, 300_000);
    assert_eq!(once.codex_max_messages, 12);
    let twice = normalize_loaded_settings(once.clone());
    assert_eq!(twice, once);
    let kept = normalize_loaded_settings(AppSettings { codex_timeout_ms: 600_000, ..keyed_settings() });
    assert_eq!(kept.codex_timeout_ms, 600_000);
}

#[test]
fn json_text_escapes_strings() {
    let value = obj(vec![("a", s("x\"y\n")), ("b", Json::Int(-3)), ("c", Json::Array(vec![Json::Null, Json::Bool(true)]))]);
    assert_eq!(sse_frame(&value), "data: {\"a\":\"x\\\"y\\n\",\"b\":-3,\"c\":[null,true]}\n\n");
}

#[test]
fn prompts_that_stay_too_long_are_refused() {
    let settings = keyed_settings();
    let system = format!("{{\"role\":\"system\",\"content\":\"{}\"}}", "r".repeat(3_900));
    let mut parts: Vec<String> = (0..10).map(|_| system.clone()).collect();
    parts.push("{\"role\":\"user\",\"content\":\"hi\"}".to_string());
    let body = format!("{{\"messages\":[{}]}}", parts.join(","));
    let mut logs = Vec::new();
    match plan_chat(&settings, body.as_bytes(), &mut logs) {
        ChatPlan::Respond { response, error } => {
            assert_eq!(response.status, 413);
            assert!(response.body.contains("prompt_too_large"));
            assert!(error.starts_with("Prompt too large after trimming."));
        }
        ChatPlan::Run { .. } => panic!("expected 413"),
    }
    assert!(logs.last().unwrap().line.ends_with("chars after trim)"));
}

#[test]
fn finished_chats_answer_with_the_completion_or_a_bad_gateway() {
    let settings = keyed_settings();
    let chat = gpt2cursor::chat::ChatRequest {
        model: "gpt2cursor-local".to_string(),
        messages: vec![msg("user", "hello")],
        stream: false,
    };
    let mut logs = Vec::new();
    let failed = finish_chat(&settings, &chat, &Err("boom".to_string()), 5, &mut logs);
    assert_eq!(failed.response.status, 502);
    assert!(failed.response.body.contains("upstream_error"));
    assert!(failed.response.body.contains("boom"));
    assert_eq!(failed.error.as_deref(), Some("codex failed"));
    assert_eq!(logs.last().unwrap().line, "codex failed: boom");
    let usage = TokenUsage { input_tokens: 4, cached_input_tokens: 0, output_tokens: 2, reasoning_output_tokens: 0 };
    let codex = CodexResult { text: "mocked".to_string(), usage, duration_ms: 12 };
    let ok = finish_chat(&settings, &chat, &Ok(codex), 1_700_000_000, &mut logs);
    assert_eq!(ok.response.status, 200);
    assert!(ok.response.body.contains("\"content\":\"mocked\""));
    assert!(ok.response.body.contains("\"id\":\"chatcmpl-1700000000\""));
    assert!(ok.response.body.contains("\"total_tokens\":6"));
    assert!(ok.error.is_none());
    assert_eq!(ok.success.map(|(u, d)| (u.output_tokens, d)), Some((2, 12)));
    assert_eq!(logs.last().unwrap().line, "chat ok 12ms out=2 tok");
}

#[test]
fn stream_events_become_frames_and_log_lines() {
    let mut logs = Vec::new();
    let frame = plan_stream_event(&CodexStreamEvent::TextDelta("hi".to_string()), "id", 1, "m", false, &mut logs)
        .unwrap();
    assert!(frame.starts_with("data: {"));
    assert!(frame.ends_with("}\n\n"));
    assert!(frame.contains("\"delta\":{\"content\":\"hi\"}"));
    assert!(logs.is_empty());
    let beat = plan_stream_event(&CodexStreamEvent::Keepalive { elapsed_secs: 20 }, "id", 1, "m", false, &mut logs)
        .unwrap();
    assert!(beat.contains("\"reasoning_content\":\"still working... 20s\""));
    assert_eq!(logs[0].line, "codex: still working... 20s");
    assert!(plan_stream_event(&CodexStreamEvent::Raw("{}".to_string()), "id", 1, "m", false, &mut logs).is_none());
    assert_eq!(logs[1].line, "dev codex jsonl: {}");
    assert!(logs[1].dev_mode);
    log_stream_end(&StreamEnd::DuringCodex, false, &mut logs);
    assert_eq!(logs[2].line, "client disconnected during codex stream");
    assert!(is_client_disconnected("client disconnected"));
    assert!(!is_client_disconnected("boom"));
}

#[test]
fn chats_that_cannot_be_cut_are_not_planned() {
    let settings = keyed_settings();
    let content = format!("{}é{}", "a".repeat(3_999), "b");
    let body = format!("{{\"messages\":[{{\"role\":\"user\",\"content\":\"{content}\"}}]}}");
    let mut logs = Vec::new();
    assert!(try_plan_chat(&settings, body.as_bytes(), &mut logs).is_none());
    assert!(logs.is_empty());
    assert!(try_plan_chat(&settings, b"{\"messages\":[{\"role\":\"user\",\"content\":\"x\"}]}", &mut logs).is_some());
}

#[test]
fn model_catalogs_that_are_not_json_are_reported() {
    let error = parse_codex_models("  not json ").unwrap_err();
    assert!(error.starts_with("Unable to parse codex model catalog: "));
    assert_eq!(parse_codex_models(" {\"models\":[{\"id\":\"a\"}]} \n").unwrap()[0].label, "a");
}

#[test]
fn streams_close_by_how_codex_ended() {
    let mut logs = Vec::new();
    let left = plan_stream_close(Err("client disconnected".to_string()), "id", 1, "m", false, &mut logs);
    assert!(matches!(left, StreamClose::ClientLeft));
    assert_eq!(logs[0].line, "client disconnected during codex stream");
    assert!(stream_close_result(&left, false, false, &mut logs).is_ok());

    let failed = plan_stream_close(Err("boom".to_string()), "id", 1, "m", false, &mut logs);
    match &failed {
        StreamClose::Failed { frames } => {
            assert_eq!(frames.len(), 3);
            assert!(frames[0].contains("Codex CLI failed: boom"));
            assert!(frames[1].contains("\"finish_reason\":\"stop\""));
            assert_eq!(frames[2], "data: [DONE]\n\n");
        }
        other => panic!("unexpected {other:?}"),
    }
    assert_eq!(logs[1].line, "codex failed (stream): boom");
    assert_eq!(stream_close_result(&failed, false, false, &mut logs).unwrap_err(), "codex failed");
    assert!(stream_close_result(&failed, true, false, &mut logs).is_ok());

    let usage = TokenUsage { input_tokens: 1, cached_input_tokens: 0, output_tokens: 2, reasoning_output_tokens: 0 };
    let codex = CodexResult { text: "ok".to_string(), usage, duration_ms: 30 };
    let answered = plan_stream_close(Ok(codex), "id", 1, "m", false, &mut logs);
    assert_eq!(logs.len(), 2);
    assert!(matches!(&answered, StreamClose::Answered { frames, .. } if frames.len() == 2));
    assert!(stream_close_result(&answered, false, false, &mut logs).is_ok());
    assert_eq!(logs[2].line, "stream ok 30ms out=2 tok");
    assert!(stream_close_result(&answered, true, false, &mut logs).is_ok());
    assert_eq!(logs[3].line, "client disconnected after stream finished (30ms)");
}

#[test]
fn keepalives_and_timeouts_fall_due() {
    assert!(!keepalive_due(9_999));
    assert!(keepalive_due(10_000));
    assert!(!run_timed_out(299_999, 300_000));
    assert!(run_timed_out(300_000, 300_000));
}
