//! What the bridge decides while it serves one request. The caller does the
//! reading, writing and running; these functions say what to answer, what to
//! run, and which lines go to the activity log.

use vstd::prelude::*;

use crate::bridge::{
    is_authorized, json_response, json_response_of, normalize_route, route_label, route_of,
    truncate_log_text, truncated_log, authorized, HttpResponse, RequestHead, Route,
};
use crate::chat::{
    chat_request, chat_requirement, count_incoming_messages, incoming_count, parse_chat_request,
    ChatRequest, ChatRequestV,
};
use crate::codex::{
    build_codex_prompt, messages_view, prompt_text, trimmed_history, CodexResult, TokenUsage,
    MAX_CODEX_PROMPT_CHARS,
};
use crate::json::{Json, JsonV};
use crate::payloads;
use crate::settings::AppSettings;
use crate::text;

verus! {

/// One activity-log line and the log mode it is appended under.
#[derive(Debug)]
pub struct LogEntry {
    pub line: String,
    pub dev_mode: bool,
}

pub open spec fn log_views(logs: Seq<LogEntry>) -> Seq<(Seq<char>, bool)> {
    Seq::new(logs.len(), |i: int| (logs[i].line@, logs[i].dev_mode))
}

fn push_log(logs: &mut Vec<LogEntry>, line: String, dev_mode: bool)
    ensures
        log_views(final(logs)@) == log_views(old(logs)@).push((line@, dev_mode)),
{
    let ghost before = log_views(logs@);
    let ghost lv = (line@, dev_mode);
    logs.push(LogEntry { line, dev_mode });
    assert(log_views(logs@) =~= before.push(lv));
}

pub open spec fn bool_text(b: bool) -> Seq<char> {
    if b {
        "true"@
    } else {
        "false"@
    }
}

/// What to do with a request once its head is read.
#[derive(Debug)]
pub enum RequestPlan {
    /// Send this response; the request fails with `error` if there is one.
    Respond { response: HttpResponse, error: Option<String> },
    /// Read the body and go on with [`plan_chat`].
    Chat,
}

/// The log line for a request.
pub open spec fn request_log_line(method: Seq<char>, path: Seq<char>) -> Seq<char> {
    method + " "@ + path + " ("@ + route_label(route_of(method, path)) + ")"@
}

/// Logs the request, refuses it without the right bearer token, and answers
/// the routes that need no body (`handle_request`).
pub fn plan_request(head: &RequestHead, settings: &AppSettings, logs: &mut Vec<LogEntry>) -> (r:
    RequestPlan)
    ensures
        log_views(final(logs)@) == log_views(old(logs)@).push(
            (request_log_line(head.method@, head.path@), settings.dev_mode),
        ),
        !authorized(head.headers@, settings.api_key@) ==> (r matches RequestPlan::Respond {
            response,
            error,
        } && json_response_of(401, payloads::unauthorized_payload(), response) && error is Some
            && error->0@ == "authentication failed"@),
        authorized(head.headers@, settings.api_key@) ==> match route_of(head.method@, head.path@) {
            Route::Healthz => r matches RequestPlan::Respond { response, error } && json_response_of(
                200,
                payloads::health_payload(),
                response,
            ) && error is None,
            Route::Models => r matches RequestPlan::Respond { response, error } && json_response_of(
                200,
                payloads::models_payload_value(),
                response,
            ) && error is None,
            Route::NotFound => r matches RequestPlan::Respond { response, error } && json_response_of(
                404,
                payloads::not_found_payload(),
                response,
            ) && error is None,
            Route::ChatCompletions => r is Chat,
        },
{
    let route = normalize_route(head.method.as_str(), head.path.as_str());
    let mut line = head.method.clone();
    text::push_str(&mut line, " ");
    text::push_str(&mut line, head.path.as_str());
    text::push_str(&mut line, " (");
    text::push_str(&mut line, route.label());
    text::push_str(&mut line, ")");
    push_log(logs, line, settings.dev_mode);
    if !is_authorized(&head.headers, settings.api_key.as_str()) {
        let response = json_response(401, &payloads::unauthorized_json());
        return RequestPlan::Respond {
            response,
            error: Some(text::owned("authentication failed")),
        };
    }
    match route {
        Route::Healthz => RequestPlan::Respond {
            response: json_response(200, &payloads::health_json()),
            error: None,
        },
        Route::Models => RequestPlan::Respond {
            response: json_response(200, &payloads::models_payload()),
            error: None,
        },
        Route::ChatCompletions => RequestPlan::Chat,
        Route::NotFound => RequestPlan::Respond {
            response: json_response(404, &payloads::not_found_json()),
            error: None,
        },
    }
}

/// The answer to a request whose body is too large: a 413 with a hint, which
/// is also logged and becomes the request's error.
pub fn plan_body_too_large(logs: &mut Vec<LogEntry>) -> (r: (HttpResponse, String))
    ensures
        log_views(final(logs)@) == log_views(old(logs)@).push((payloads::body_too_large_hint(), false)),
        json_response_of(413, payloads::body_too_large_payload(), r.0),
        r.1@ == payloads::body_too_large_hint(),
{
    let hint = text::owned(
        "Request body too large. Lower Context msgs in gpt2cursor, or start a new Cursor Agent chat.",
    );
    push_log(logs, hint.clone(), false);
    let response = json_response(413, &payloads::body_too_large_error_json());
    (response, hint)
}

/// How many raw messages a request may carry into parsing: four times the
/// Codex history length (saturating), and at least sixteen.
pub open spec fn max_raw_messages(max_messages: usize) -> nat {
    let scaled = if max_messages * 4 > usize::MAX { usize::MAX as nat } else { (max_messages * 4) as nat };
    if scaled < 16 {
        16
    } else {
        scaled
    }
}

/// What to do with a chat request once its body is read.
#[derive(Debug)]
pub enum ChatPlan {
    /// Send this response; the request fails with `error`.
    Respond { response: HttpResponse, error: String },
    /// Run Codex on `prompt`; `chat.stream` says whether to stream.
    Run { chat: ChatRequest, prompt: String },
}

/// The model of a [`ChatPlan`], with the payload a response carries.
pub enum ChatPlanV {
    Respond { status: u16, payload: JsonV, error: Seq<char> },
    Run { chat: ChatRequestV, prompt: Seq<char> },
}

/// Whether `plan` is what `spec` describes.
pub open spec fn plan_matches(plan: ChatPlan, spec: ChatPlanV) -> bool {
    match spec {
        ChatPlanV::Respond { status, payload, error } => plan matches ChatPlan::Respond {
            response,
            error: e,
        } && json_response_of(status, payload, response) && e@ == error,
        ChatPlanV::Run { chat, prompt } => plan matches ChatPlan::Run { chat: c, prompt: p } && c@
            == chat && p@ == prompt,
    }
}

pub open spec fn kb_text(body_len: nat) -> Seq<char> {
    text::decimal(body_len / 1024)
}

/// The log lines of a parsed chat request, before the prompt is built.
pub open spec fn parsed_chat_logs(
    settings: AppSettings,
    body: Seq<u8>,
    incoming: nat,
    chat: ChatRequestV,
) -> Seq<(Seq<char>, bool)> {
    let n = chat.messages.len();
    let kb = kb_text(body.len());
    let pre = if incoming > n {
        seq![
            (
                "pre-trimmed "@ + text::decimal(incoming) + " -> "@ + text::decimal(n)
                    + " messages ("@ + kb
                    + " KB body; lower Context msgs or start a new chat if this keeps happening)"@,
                true,
            ),
        ]
    } else {
        Seq::empty()
    };
    let summary = seq![
        (
            "chat "@ + chat.model + " stream="@ + bool_text(chat.stream) + " messages="@
                + text::decimal(n) + " (body "@ + kb + " KB)"@,
            settings.dev_mode,
        ),
    ];
    let dev = if settings.dev_mode {
        seq![
            (
                "dev request body: "@ + truncated_log(
                    text::trim(crate::bridge::utf8_lossy(body)),
                    crate::bridge::MAX_DEV_BODY_LOG_CHARS as nat,
                ),
                true,
            ),
        ]
    } else {
        Seq::empty()
    };
    pre + summary + dev
}

/// The log lines once the prompt is built and fits.
pub open spec fn prompt_logs(
    settings: AppSettings,
    prompt: Seq<char>,
    original: nat,
    sent: nat,
) -> Seq<(Seq<char>, bool)> {
    let chars = text::decimal(text::byte_len(prompt));
    let run = seq![
        (
            "codex exec via pty, "@ + chars + " chars, "@ + text::decimal(sent) + " msgs, timeout "@
                + text::decimal((settings.codex_timeout_ms / 1000) as nat) + "s"@,
            true,
        ),
    ];
    let dev = if settings.dev_mode {
        seq![
            (
                "dev codex prompt: "@ + truncated_log(prompt, crate::bridge::MAX_LOG_LINE_CHARS as nat),
                true,
            ),
        ]
    } else {
        Seq::empty()
    };
    let trimmed = if original > sent {
        seq![
            (
                "trimmed history "@ + text::decimal(original) + " -> "@ + text::decimal(sent)
                    + " messages, "@ + chars + " chars prompt"@,
                true,
            ),
        ]
    } else {
        Seq::empty()
    };
    run + dev + trimmed
}

/// What `plan_chat` decides, and the lines it logs.
pub open spec fn chat_plan(settings: AppSettings, body: Seq<u8>, input: Option<JsonV>) -> (
    ChatPlanV,
    Seq<(Seq<char>, bool)>,
) {
    match input {
        None => (
            ChatPlanV::Respond {
                status: 400,
                payload: payloads::invalid_json_payload(),
                error: "invalid json"@,
            },
            Seq::empty(),
        ),
        Some(v) => match chat_request(v, max_raw_messages(settings.codex_max_messages)) {
            Err(m) => (
                ChatPlanV::Respond {
                    status: 400,
                    payload: payloads::invalid_request_payload(m),
                    error: "invalid chat request"@,
                },
                seq![("chat parse error: "@ + m, settings.dev_mode)],
            ),
            Ok(chat) => {
                let before = parsed_chat_logs(settings, body, incoming_count(v), chat);
                let trimmed = trimmed_history(chat.messages, settings.codex_max_messages as nat);
                let prompt = prompt_text(trimmed);
                if text::byte_len(prompt) > MAX_CODEX_PROMPT_CHARS {
                    (
                        ChatPlanV::Respond {
                            status: 413,
                            payload: payloads::prompt_too_large_payload(),
                            error: payloads::prompt_too_large_hint(),
                        },
                        before + seq![
                            (
                                payloads::prompt_too_large_hint() + " ("@ + text::decimal(
                                    text::byte_len(prompt),
                                ) + " chars after trim)"@,
                                true,
                            ),
                        ],
                    )
                } else {
                    (
                        ChatPlanV::Run { chat, prompt },
                        before + prompt_logs(
                            settings,
                            prompt,
                            chat.messages.len(),
                            trimmed.len(),
                        ),
                    )
                }
            },
        },
    }
}

/// Whether `input` can be planned without a cut that splits a character.
pub open spec fn chat_plan_requirement(settings: AppSettings, input: Option<JsonV>) -> bool {
    match input {
        Some(v) => chat_requirement(v, max_raw_messages(settings.codex_max_messages)),
        None => true,
    }
}

fn max_raw_for(max_messages: usize) -> (r: usize)
    ensures
        r as nat == max_raw_messages(max_messages),
{
    let scaled = if max_messages > usize::MAX / 4 { usize::MAX } else { max_messages * 4 };
    if scaled < 16 {
        16
    } else {
        scaled
    }
}

/// Whether `plan_chat` can handle `input` (see [`chat_plan_requirement`]).
pub fn chat_plan_ready(settings: &AppSettings, input: Option<&Json>) -> (r: bool)
    ensures
        r == chat_plan_requirement(*settings, match input {
            Some(v) => Some(v@),
            None => None,
        }),
{
    match input {
        Some(v) => crate::chat::chat_request_truncatable(v, max_raw_for(settings.codex_max_messages)),
        None => true,
    }
}

fn bool_str(b: bool) -> (r: &'static str)
    ensures
        r@ == bool_text(b),
{
    if b {
        "true"
    } else {
        "false"
    }
}

fn push_parsed_chat_logs(
    settings: &AppSettings,
    body: &[u8],
    incoming: usize,
    chat: &ChatRequest,
    logs: &mut Vec<LogEntry>,
)
    ensures
        log_views(final(logs)@) == log_views(old(logs)@) + parsed_chat_logs(
            *settings,
            body@,
            incoming as nat,
            chat@,
        ),
{
    let ghost start = log_views(logs@);
    let n = chat.messages.len();
    let kb = body.len() / 1024;
    if incoming > n {
        let mut line = text::owned("pre-trimmed ");
        text::push_decimal(&mut line, incoming as u64);
        text::push_str(&mut line, " -> ");
        text::push_decimal(&mut line, n as u64);
        text::push_str(&mut line, " messages (");
        text::push_decimal(&mut line, kb as u64);
        text::push_str(
            &mut line,
            " KB body; lower Context msgs or start a new chat if this keeps happening)",
        );
        push_log(logs, line, true);
    }
    let mut line = text::owned("chat ");
    text::push_str(&mut line, chat.model.as_str());
    text::push_str(&mut line, " stream=");
    text::push_str(&mut line, bool_str(chat.stream));
    text::push_str(&mut line, " messages=");
    text::push_decimal(&mut line, n as u64);
    text::push_str(&mut line, " (body ");
    text::push_decimal(&mut line, kb as u64);
    text::push_str(&mut line, " KB)");
    push_log(logs, line, settings.dev_mode);
    if settings.dev_mode {
        let decoded = crate::bridge::from_utf8_lossy(body);
        let trimmed_body = text::trimmed(decoded.as_str());
        let shown = truncate_log_text(trimmed_body.as_str(), crate::bridge::MAX_DEV_BODY_LOG_CHARS);
        let mut line = text::owned("dev request body: ");
        text::push_str(&mut line, shown.as_str());
        push_log(logs, line, true);
    }
    assert(log_views(logs@) =~= start + parsed_chat_logs(*settings, body@, incoming as nat, chat@));
}

fn push_prompt_logs(
    settings: &AppSettings,
    prompt: &String,
    original: usize,
    sent: usize,
    prompt_chars: usize,
    logs: &mut Vec<LogEntry>,
)
    requires
        prompt_chars == text::byte_len(prompt@),
    ensures
        log_views(final(logs)@) == log_views(old(logs)@) + prompt_logs(
            *settings,
            prompt@,
            original as nat,
            sent as nat,
        ),
{
    let ghost start = log_views(logs@);
    let mut line = text::owned("codex exec via pty, ");
    text::push_decimal(&mut line, prompt_chars as u64);
    text::push_str(&mut line, " chars, ");
    text::push_decimal(&mut line, sent as u64);
    text::push_str(&mut line, " msgs, timeout ");
    text::push_decimal(&mut line, settings.codex_timeout_ms / 1000);
    text::push_str(&mut line, "s");
    push_log(logs, line, true);
    if settings.dev_mode {
        let shown = truncate_log_text(prompt.as_str(), crate::bridge::MAX_LOG_LINE_CHARS);
        let mut line = text::owned("dev codex prompt: ");
        text::push_str(&mut line, shown.as_str());
        push_log(logs, line, true);
    }
    if original > sent {
        let mut line = text::owned("trimmed history ");
        text::push_decimal(&mut line, original as u64);
        text::push_str(&mut line, " -> ");
        text::push_decimal(&mut line, sent as u64);
        text::push_str(&mut line, " messages, ");
        text::push_decimal(&mut line, prompt_chars as u64);
        text::push_str(&mut line, " chars prompt");
        push_log(logs, line, true);
    }
    assert(log_views(logs@) =~= start + prompt_logs(*settings, prompt@, original as nat, sent as nat));
}

fn plan_chat_input(
    settings: &AppSettings,
    body: &[u8],
    input: Option<&Json>,
    logs: &mut Vec<LogEntry>,
) -> (r: ChatPlan)
    requires
        chat_plan_requirement(*settings, match input {
            Some(v) => Some(v@),
            None => None,
        }),
    ensures
        plan_matches(
            r,
            chat_plan(*settings, body@, match input {
                Some(v) => Some(v@),
                None => None,
            }).0,
        ),
        log_views(final(logs)@) == log_views(old(logs)@) + chat_plan(*settings, body@, match input {
            Some(v) => Some(v@),
            None => None,
        }).1,
{
    let ghost start = log_views(logs@);
    let input = match input {
        Some(v) => v,
        None => {
            assert(log_views(logs@) =~= start + Seq::<(Seq<char>, bool)>::empty());
            return ChatPlan::Respond {
                response: json_response(400, &payloads::invalid_json_json()),
                error: text::owned("invalid json"),
            };
        },
    };
    let incoming = count_incoming_messages(input);
    let max_raw = max_raw_for(settings.codex_max_messages);
    let chat = match parse_chat_request(input, max_raw) {
        Ok(chat) => chat,
        Err(message) => {
            let mut line = text::owned("chat parse error: ");
            text::push_str(&mut line, message.as_str());
            push_log(logs, line, settings.dev_mode);
            assert(log_views(logs@) =~= start + chat_plan(*settings, body@, Some(input@)).1);
            return ChatPlan::Respond {
                response: json_response(400, &payloads::invalid_request_json(message.as_str())),
                error: text::owned("invalid chat request"),
            };
        },
    };
    push_parsed_chat_logs(settings, body, incoming, &chat, logs);
    assert(log_views(logs@) =~= start + parsed_chat_logs(*settings, body@, incoming_count(input@), chat@));
    let ghost after_parse = log_views(logs@);
    proof {
        crate::chat::lemma_chat_trimmable(input@, max_raw as nat, settings.codex_max_messages as nat);
    }
    let (prompt, meta) = build_codex_prompt(chat.messages.as_slice(), settings.codex_max_messages);
    if meta.prompt_chars > MAX_CODEX_PROMPT_CHARS {
        let mut line = text::owned(
            "Prompt too large after trimming. Lower Context msgs in gpt2cursor, or start a new Cursor Agent chat.",
        );
        text::push_str(&mut line, " (");
        text::push_decimal(&mut line, meta.prompt_chars as u64);
        text::push_str(&mut line, " chars after trim)");
        push_log(logs, line, true);
        assert(log_views(logs@) =~= start + chat_plan(*settings, body@, Some(input@)).1);
        return ChatPlan::Respond {
            response: json_response(413, &payloads::prompt_too_large_json()),
            error: text::owned(
                "Prompt too large after trimming. Lower Context msgs in gpt2cursor, or start a new Cursor Agent chat.",
            ),
        };
    }
    push_prompt_logs(settings, &prompt, meta.original_messages, meta.sent_messages, meta.prompt_chars, logs);
    assert(log_views(logs@) =~= after_parse + prompt_logs(
        *settings,
        prompt@,
        messages_view(chat.messages@).len(),
        trimmed_history(messages_view(chat.messages@), settings.codex_max_messages as nat).len(),
    ));
    assert(log_views(logs@) =~= start + chat_plan(*settings, body@, Some(input@)).1);
    ChatPlan::Run { chat, prompt }
}


/// Decides a chat request from its body (`handle_chat` up to running
/// Codex): the body is parsed as JSON; a 400 for bodies that are not JSON or
/// not a chat request, a 413 for prompts too long after trimming, else the
/// prompt to run.
pub fn plan_chat(settings: &AppSettings, body: &[u8], logs: &mut Vec<LogEntry>) -> (r: ChatPlan)
    requires
        chat_plan_requirement(*settings, crate::json::json_parse_bytes(body@)),
    ensures
        plan_matches(r, chat_plan(*settings, body@, crate::json::json_parse_bytes(body@)).0),
        log_views(final(logs)@) == log_views(old(logs)@) + chat_plan(
            *settings,
            body@,
            crate::json::json_parse_bytes(body@),
        ).1,
{
    let input = crate::json::parse_json_bytes(body);
    plan_chat_input(settings, body, input.as_ref(), logs)
}

/// Decides a chat request from its body, as [`plan_chat`] does, when every
/// message it keeps can be cut without splitting a character; otherwise
/// returns nothing and logs nothing.
pub fn try_plan_chat(settings: &AppSettings, body: &[u8], logs: &mut Vec<LogEntry>) -> (r: Option<
    ChatPlan,
>)
    ensures
        r is None <==> !chat_plan_requirement(*settings, crate::json::json_parse_bytes(body@)),
        r is None ==> log_views(final(logs)@) == log_views(old(logs)@),
        r matches Some(p) ==> plan_matches(
            p,
            chat_plan(*settings, body@, crate::json::json_parse_bytes(body@)).0,
        ) && log_views(final(logs)@) == log_views(old(logs)@) + chat_plan(
            *settings,
            body@,
            crate::json::json_parse_bytes(body@),
        ).1,
{
    let input = crate::json::parse_json_bytes(body);
    if !chat_plan_ready(settings, input.as_ref()) {
        return None;
    }
    Some(plan_chat(settings, body, logs))
}

/// How a non-streaming chat request ends.
#[derive(Debug)]
pub struct ChatReply {
    /// The response to send.
    pub response: HttpResponse,
    /// The error the request fails with, if any.
    pub error: Option<String>,
    /// The token counts and duration to record once the response is sent.
    pub success: Option<(TokenUsage, u64)>,
}

/// The log lines of a successful Codex run.
pub open spec fn success_logs(
    dev_mode: bool,
    kind: Seq<char>,
    answer: Seq<char>,
    usage: TokenUsage,
    duration_ms: u64,
) -> Seq<(Seq<char>, bool)> {
    seq![
        (
            kind + " ok "@ + text::decimal(duration_ms as nat) + "ms out="@ + text::decimal(
                usage.output_tokens as nat,
            ) + " tok"@,
            dev_mode,
        ),
    ] + if dev_mode {
        seq![
            (
                "dev codex result: "@ + truncated_log(answer, crate::bridge::MAX_LOG_LINE_CHARS as nat),
                true,
            ),
        ]
    } else {
        Seq::empty()
    }
}

fn push_success_logs(
    logs: &mut Vec<LogEntry>,
    dev_mode: bool,
    kind: &str,
    codex: &CodexResult,
)
    ensures
        log_views(final(logs)@) == log_views(old(logs)@) + success_logs(
            dev_mode,
            kind@,
            codex.text@,
            codex.usage,
            codex.duration_ms,
        ),
{
    let ghost start = log_views(logs@);
    let mut line = text::owned(kind);
    text::push_str(&mut line, " ok ");
    text::push_decimal(&mut line, codex.duration_ms);
    text::push_str(&mut line, "ms out=");
    text::push_decimal(&mut line, codex.usage.output_tokens);
    text::push_str(&mut line, " tok");
    push_log(logs, line, dev_mode);
    if dev_mode {
        let shown = truncate_log_text(codex.text.as_str(), crate::bridge::MAX_LOG_LINE_CHARS);
        let mut line = text::owned("dev codex result: ");
        text::push_str(&mut line, shown.as_str());
        push_log(logs, line, true);
    }
    assert(log_views(logs@) =~= start + success_logs(
        dev_mode,
        kind@,
        codex.text@,
        codex.usage,
        codex.duration_ms,
    ));
}

/// Answers a non-streaming chat request once Codex has run (`handle_chat`
/// after the run): a 502 with the failure, or the completion created at
/// `created`.
pub fn finish_chat(
    settings: &AppSettings,
    chat: &ChatRequest,
    outcome: &Result<CodexResult, String>,
    created: u64,
    logs: &mut Vec<LogEntry>,
) -> (r: ChatReply)
    requires
        outcome matches Ok(c) ==> c.usage.input_tokens + c.usage.output_tokens <= u64::MAX,
    ensures
        match outcome {
            Err(m) => json_response_of(502, payloads::upstream_error_payload(m@), r.response)
                && r.error is Some && r.error->0@ == "codex failed"@ && r.success is None
                && log_views(final(logs)@) == log_views(old(logs)@).push(
                ("codex failed: "@ + m@, settings.dev_mode),
            ),
            Ok(c) => json_response_of(
                200,
                payloads::completion_payload(created, chat.model@, c.text@, c.usage, c.duration_ms),
                r.response,
            ) && r.error is None && r.success == Some((c.usage, c.duration_ms)) && log_views(
                final(logs)@,
            ) == log_views(old(logs)@) + success_logs(
                settings.dev_mode,
                "chat"@,
                c.text@,
                c.usage,
                c.duration_ms,
            ),
        },
{
    match outcome {
        Err(message) => {
            let mut line = text::owned("codex failed: ");
            text::push_str(&mut line, message.as_str());
            push_log(logs, line, settings.dev_mode);
            ChatReply {
                response: json_response(502, &payloads::upstream_error_json(message.as_str())),
                error: Some(text::owned("codex failed")),
                success: None,
            }
        },
        Ok(codex) => {
            let payload = payloads::completion_json(
                created,
                chat.model.as_str(),
                codex.text.as_str(),
                &codex.usage,
                codex.duration_ms,
            );
            let response = json_response(200, &payload);
            push_success_logs(logs, settings.dev_mode, "chat", codex);
            ChatReply { response, error: None, success: Some((codex.usage, codex.duration_ms)) }
        },
    }
}

/// What Codex reports while it streams.
#[derive(Debug)]
pub enum CodexStreamEvent {
    /// New answer text.
    TextDelta(String),
    /// Reasoning Codex shares.
    Reasoning(String),
    /// A tool or file activity.
    Activity(String),
    /// A raw JSON line, for the dev log.
    Raw(String),
    /// Still running after `elapsed_secs` seconds.
    Keepalive { elapsed_secs: u64 },
}

/// The event frame of one streamed chunk.
pub open spec fn chunk_frame(
    id: Seq<char>,
    created: u64,
    model: Seq<char>,
    delta: JsonV,
    finish: JsonV,
) -> Seq<char> {
    crate::bridge::sse_frame_text(payloads::chunk_payload(id, created, model, delta, finish))
}

/// The first chunk: the assistant role.
pub fn role_frame(id: &str, created: u64, model: &str) -> (r: String)
    ensures
        r@ == chunk_frame(id@, created, model@, payloads::delta1("role"@, "assistant"@), JsonV::Null),
{
    let chunk = payloads::chunk_json(id, created, model, payloads::delta_json("role", "assistant"), Json::Null);
    crate::bridge::sse_frame(&chunk)
}

/// A chunk of answer text.
pub fn content_frame(id: &str, created: u64, model: &str, content: &str) -> (r: String)
    ensures
        r@ == chunk_frame(id@, created, model@, payloads::delta1("content"@, content@), JsonV::Null),
{
    let chunk = payloads::chunk_json(id, created, model, payloads::delta_json("content", content), Json::Null);
    crate::bridge::sse_frame(&chunk)
}

/// A chunk of reasoning text (`write_sse_reasoning`).
pub fn reasoning_frame(id: &str, created: u64, model: &str, reasoning: &str) -> (r: String)
    ensures
        r@ == chunk_frame(
            id@,
            created,
            model@,
            payloads::delta1("reasoning_content"@, reasoning@),
            JsonV::Null,
        ),
{
    let chunk = payloads::chunk_json(
        id,
        created,
        model,
        payloads::delta_json("reasoning_content", reasoning),
        Json::Null,
    );
    crate::bridge::sse_frame(&chunk)
}

/// The last chunk, with `finish_reason: "stop"` (`write_sse_finish` sends it
/// before the done marker).
pub fn finish_frame(id: &str, created: u64, model: &str) -> (r: String)
    ensures
        r@ == chunk_frame(id@, created, model@, JsonV::Object(Seq::empty()), JsonV::Str("stop"@)),
{
    let chunk = payloads::chunk_json(
        id,
        created,
        model,
        payloads::empty_object(),
        crate::json::str_value("stop"),
    );
    crate::bridge::sse_frame(&chunk)
}

/// The text chunk that reports a Codex failure inside a stream
/// (`try_write_stream_error` sends it before the finish).
pub fn stream_error_frame(id: &str, created: u64, model: &str, message: &str) -> (r: String)
    ensures
        r@ == chunk_frame(
            id@,
            created,
            model@,
            payloads::delta1("content"@, "Codex CLI failed: "@ + message@),
            JsonV::Null,
        ),
{
    let mut content = text::owned("Codex CLI failed: ");
    text::push_str(&mut content, message);
    content_frame(id, created, model, content.as_str())
}

/// The reasoning text of a keep-alive.
pub open spec fn heartbeat_text(elapsed_secs: u64) -> Seq<char> {
    "still working... "@ + text::decimal(elapsed_secs as nat) + "s"@
}

/// What to log and send for one streamed Codex event.
pub open spec fn stream_event_effect(
    event: CodexStreamEvent,
    id: Seq<char>,
    created: u64,
    model: Seq<char>,
    dev_mode: bool,
) -> (Option<Seq<char>>, Seq<(Seq<char>, bool)>) {
    match event {
        CodexStreamEvent::TextDelta(d) => (
            Some(chunk_frame(id, created, model, payloads::delta1("content"@, d@), JsonV::Null)),
            Seq::empty(),
        ),
        CodexStreamEvent::Reasoning(t) => (
            Some(
                chunk_frame(
                    id,
                    created,
                    model,
                    payloads::delta1("reasoning_content"@, t@),
                    JsonV::Null,
                ),
            ),
            seq![("codex: "@ + t@, dev_mode)],
        ),
        CodexStreamEvent::Activity(t) => (
            Some(
                chunk_frame(
                    id,
                    created,
                    model,
                    payloads::delta1("reasoning_content"@, t@),
                    JsonV::Null,
                ),
            ),
            seq![("codex: "@ + t@, dev_mode)],
        ),
        CodexStreamEvent::Raw(t) => (None, seq![("dev codex jsonl: "@ + t@, true)]),
        CodexStreamEvent::Keepalive { elapsed_secs } => (
            Some(
                chunk_frame(
                    id,
                    created,
                    model,
                    payloads::delta1("reasoning_content"@, heartbeat_text(elapsed_secs)),
                    JsonV::Null,
                ),
            ),
            seq![("codex: "@ + heartbeat_text(elapsed_secs), dev_mode)],
        ),
    }
}

/// Handles one streamed Codex event: logs it and returns the frame to send,
/// if any (the event callback of `handle_chat_streaming`).
pub fn plan_stream_event(
    event: &CodexStreamEvent,
    id: &str,
    created: u64,
    model: &str,
    dev_mode: bool,
    logs: &mut Vec<LogEntry>,
) -> (r: Option<String>)
    ensures
        match r {
            Some(f) => stream_event_effect(*event, id@, created, model@, dev_mode).0 == Some(f@),
            None => stream_event_effect(*event, id@, created, model@, dev_mode).0 is None,
        },
        log_views(final(logs)@) == log_views(old(logs)@) + stream_event_effect(
            *event,
            id@,
            created,
            model@,
            dev_mode,
        ).1,
{
    let ghost start = log_views(logs@);
    match event {
        CodexStreamEvent::TextDelta(delta) => {
            assert(log_views(logs@) =~= start + Seq::<(Seq<char>, bool)>::empty());
            Some(content_frame(id, created, model, delta.as_str()))
        },
        CodexStreamEvent::Reasoning(t) => {
            let mut line = text::owned("codex: ");
            text::push_str(&mut line, t.as_str());
            push_log(logs, line, dev_mode);
            assert(log_views(logs@) =~= start + stream_event_effect(*event, id@, created, model@, dev_mode).1);
            Some(reasoning_frame(id, created, model, t.as_str()))
        },
        CodexStreamEvent::Activity(t) => {
            let mut line = text::owned("codex: ");
            text::push_str(&mut line, t.as_str());
            push_log(logs, line, dev_mode);
            assert(log_views(logs@) =~= start + stream_event_effect(*event, id@, created, model@, dev_mode).1);
            Some(reasoning_frame(id, created, model, t.as_str()))
        },
        CodexStreamEvent::Raw(t) => {
            let mut line = text::owned("dev codex jsonl: ");
            text::push_str(&mut line, t.as_str());
            push_log(logs, line, true);
            assert(log_views(logs@) =~= start + stream_event_effect(*event, id@, created, model@, dev_mode).1);
            None
        },
        CodexStreamEvent::Keepalive { elapsed_secs } => {
            let mut heartbeat = text::owned("still working... ");
            text::push_decimal(&mut heartbeat, *elapsed_secs);
            text::push_str(&mut heartbeat, "s");
            let mut line = text::owned("codex: ");
            text::push_str(&mut line, heartbeat.as_str());
            push_log(logs, line, dev_mode);
            assert(log_views(logs@) =~= start + stream_event_effect(*event, id@, created, model@, dev_mode).1);
            Some(reasoning_frame(id, created, model, heartbeat.as_str()))
        },
    }
}

/// The error a stream callback returns when the client has gone.
pub open spec fn client_disconnected_text() -> Seq<char> {
    "client disconnected"@
}

/// Whether a streaming failure means the client went away.
pub fn is_client_disconnected(message: &str) -> (r: bool)
    ensures
        r == (message@ == client_disconnected_text()),
{
    text::str_eq(message, "client disconnected")
}

/// How a stream ends.
pub enum StreamEnd {
    /// The client was gone before the stream head could be sent.
    BeforeStart,
    /// The client was gone before Codex started.
    BeforeCodex,
    /// The client went away while Codex was streaming.
    DuringCodex,
    /// Codex failed with this message.
    CodexFailed(String),
    /// Codex finished; `client_gone` when the finish could not be delivered.
    Finished { codex: CodexResult, client_gone: bool },
}

/// The lines logged when a stream ends.
pub open spec fn stream_end_logs(end: StreamEnd, dev_mode: bool) -> Seq<(Seq<char>, bool)> {
    match end {
        StreamEnd::BeforeStart => seq![("client disconnected before stream started"@, dev_mode)],
        StreamEnd::BeforeCodex => seq![("client disconnected before codex started"@, dev_mode)],
        StreamEnd::DuringCodex => seq![("client disconnected during codex stream"@, dev_mode)],
        StreamEnd::CodexFailed(m) => seq![("codex failed (stream): "@ + m@, dev_mode)],
        StreamEnd::Finished { codex, client_gone } => finished_logs(codex, client_gone, dev_mode),
    }
}

/// The lines logged when Codex finished a stream; `client_gone` when the
/// finish could not be delivered.
pub open spec fn finished_logs(codex: CodexResult, client_gone: bool, dev_mode: bool) -> Seq<
    (Seq<char>, bool),
> {
    if client_gone {
        seq![
            (
                "client disconnected after stream finished ("@ + text::decimal(
                    codex.duration_ms as nat,
                ) + "ms)"@,
                dev_mode,
            ),
        ]
    } else {
        success_logs(dev_mode, "stream"@, codex.text@, codex.usage, codex.duration_ms)
    }
}

fn push_finished_logs(logs: &mut Vec<LogEntry>, codex: &CodexResult, client_gone: bool, dev_mode: bool)
    ensures
        log_views(final(logs)@) == log_views(old(logs)@) + finished_logs(*codex, client_gone, dev_mode),
{
    let ghost start = log_views(logs@);
    if client_gone {
        let mut line = text::owned("client disconnected after stream finished (");
        text::push_decimal(&mut line, codex.duration_ms);
        text::push_str(&mut line, "ms)");
        push_log(logs, line, dev_mode);
    } else {
        push_success_logs(logs, dev_mode, "stream", codex);
    }
    assert(log_views(logs@) =~= start + finished_logs(*codex, client_gone, dev_mode));
}

/// Logs how a stream ended (the closing branches of `handle_chat_streaming`).
pub fn log_stream_end(end: &StreamEnd, dev_mode: bool, logs: &mut Vec<LogEntry>)
    ensures
        log_views(final(logs)@) == log_views(old(logs)@) + stream_end_logs(*end, dev_mode),
{
    let ghost start = log_views(logs@);
    match end {
        StreamEnd::BeforeStart => {
            push_log(logs, text::owned("client disconnected before stream started"), dev_mode);
        },
        StreamEnd::BeforeCodex => {
            push_log(logs, text::owned("client disconnected before codex started"), dev_mode);
        },
        StreamEnd::DuringCodex => {
            push_log(logs, text::owned("client disconnected during codex stream"), dev_mode);
        },
        StreamEnd::CodexFailed(message) => {
            let mut line = text::owned("codex failed (stream): ");
            text::push_str(&mut line, message.as_str());
            push_log(logs, line, dev_mode);
        },
        StreamEnd::Finished { codex, client_gone } => {
            push_finished_logs(logs, codex, *client_gone, dev_mode);
        },
    }
    assert(log_views(logs@) =~= start + stream_end_logs(*end, dev_mode));
}

/// How a stream goes on once Codex has stopped.
#[derive(Debug)]
pub enum StreamClose {
    /// The client left while Codex ran: nothing more to send, and the
    /// request ends well.
    ClientLeft,
    /// Codex failed: send `frames` in order; the request fails with
    /// "codex failed" unless the client leaves meanwhile.
    Failed { frames: Vec<String> },
    /// Codex answered: send `frames` in order, and record `codex`'s tokens.
    Answered { frames: Vec<String>, codex: CodexResult },
}

/// The frames that report a Codex failure inside a stream and close it.
pub open spec fn failure_frames(id: Seq<char>, created: u64, model: Seq<char>, message: Seq<char>) -> Seq<Seq<char>> {
    seq![
        chunk_frame(id, created, model, payloads::delta1("content"@, "Codex CLI failed: "@ + message), JsonV::Null),
        chunk_frame(id, created, model, JsonV::Object(Seq::empty()), JsonV::Str("stop"@)),
        crate::bridge::sse_done_text(),
    ]
}

/// The frames that close a stream Codex answered.
pub open spec fn finish_frames(id: Seq<char>, created: u64, model: Seq<char>) -> Seq<Seq<char>> {
    seq![
        chunk_frame(id, created, model, JsonV::Object(Seq::empty()), JsonV::Str("stop"@)),
        crate::bridge::sse_done_text(),
    ]
}

/// Decides how a stream goes on once Codex has stopped, with `outcome`
/// (the end of `handle_chat_streaming`): a run the client left ends quietly;
/// a failure is logged and reported in the stream; an answer is closed.
pub fn plan_stream_close(
    outcome: Result<CodexResult, String>,
    id: &str,
    created: u64,
    model: &str,
    dev_mode: bool,
    logs: &mut Vec<LogEntry>,
) -> (r: StreamClose)
    ensures
        match outcome {
            Err(m) => if m@ == client_disconnected_text() {
                r is ClientLeft && log_views(final(logs)@) == log_views(old(logs)@)
                    + stream_end_logs(StreamEnd::DuringCodex, dev_mode)
            } else {
                r matches StreamClose::Failed { frames } && text::views_of_strings(frames@)
                    == failure_frames(id@, created, model@, m@) && log_views(final(logs)@)
                    == log_views(old(logs)@) + seq![("codex failed (stream): "@ + m@, dev_mode)]
            },
            Ok(c) => r matches StreamClose::Answered { frames, codex } && codex == c
                && text::views_of_strings(frames@) == finish_frames(id@, created, model@)
                && log_views(final(logs)@) == log_views(old(logs)@),
        },
{
    match outcome {
        Err(message) => {
            if is_client_disconnected(message.as_str()) {
                log_stream_end(&StreamEnd::DuringCodex, dev_mode, logs);
                return StreamClose::ClientLeft;
            }
            let mut line = text::owned("codex failed (stream): ");
            text::push_str(&mut line, message.as_str());
            push_log(logs, line, dev_mode);
            let mut frames: Vec<String> = Vec::new();
            frames.push(stream_error_frame(id, created, model, message.as_str()));
            frames.push(finish_frame(id, created, model));
            frames.push(text::owned(crate::bridge::sse_done()));
            assert(text::views_of_strings(frames@) =~= failure_frames(id@, created, model@, message@));
            StreamClose::Failed { frames }
        },
        Ok(codex) => {
            let mut frames: Vec<String> = Vec::new();
            frames.push(finish_frame(id, created, model));
            frames.push(text::owned(crate::bridge::sse_done()));
            assert(text::views_of_strings(frames@) =~= finish_frames(id@, created, model@));
            StreamClose::Answered { frames, codex }
        },
    }
}

/// How a stream's request ends once its closing frames were sent, or the
/// client was found gone while sending them: a failure fails the request
/// unless the client left; an answer is logged as finished.
pub fn stream_close_result(
    close: &StreamClose,
    client_gone: bool,
    dev_mode: bool,
    logs: &mut Vec<LogEntry>,
) -> (r: Result<(), String>)
    ensures
        match close {
            StreamClose::ClientLeft => r is Ok && log_views(final(logs)@) == log_views(old(logs)@),
            StreamClose::Failed { .. } => (if client_gone {
                r is Ok
            } else {
                r matches Err(e) && e@ == "codex failed"@
            }) && log_views(final(logs)@) == log_views(old(logs)@),
            StreamClose::Answered { codex, .. } => r is Ok && log_views(final(logs)@) == log_views(
                old(logs)@,
            ) + finished_logs(*codex, client_gone, dev_mode),
        },
{
    match close {
        StreamClose::ClientLeft => Ok(()),
        StreamClose::Failed { .. } => if client_gone {
            Ok(())
        } else {
            Err(text::owned("codex failed"))
        },
        StreamClose::Answered { codex, .. } => {
            push_finished_logs(logs, codex, client_gone, dev_mode);
            Ok(())
        },
    }
}

} // verus!
