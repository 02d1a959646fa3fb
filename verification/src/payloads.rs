//! The JSON bodies the bridge answers with. Object fields are listed in the
//! order `serde_json`'s default map keeps them: sorted by name.

use vstd::prelude::*;

use crate::codex::TokenUsage;
use crate::json::{array, field, field_views, object, str_value, views, Json, JsonV};
use crate::text;

verus! {

pub open spec fn jstr(s: Seq<char>) -> JsonV {
    JsonV::Str(s)
}

/// `{"error": {...}}`.
pub open spec fn error_body(fields: Seq<(Seq<char>, JsonV)>) -> JsonV {
    JsonV::Object(seq![("error"@, JsonV::Object(fields))])
}

/// The hint shown when Cursor sends more than `MAX_BODY_BYTES`.
pub open spec fn body_too_large_hint() -> Seq<char> {
    "Request body too large. Lower Context msgs in gpt2cursor, or start a new Cursor Agent chat."@
}

/// The hint shown when the prompt is still too long after trimming.
pub open spec fn prompt_too_large_hint() -> Seq<char> {
    "Prompt too large after trimming. Lower Context msgs in gpt2cursor, or start a new Cursor Agent chat."@
}

pub open spec fn unauthorized_payload() -> JsonV {
    error_body(
        seq![
            ("message"@, jstr("Missing or invalid bearer token"@)),
            ("type"@, jstr("authentication_error"@)),
        ],
    )
}

pub open spec fn not_found_payload() -> JsonV {
    error_body(seq![("message"@, jstr("Route not found"@)), ("type"@, jstr("not_found"@))])
}

pub open spec fn invalid_json_payload() -> JsonV {
    invalid_request_payload("Request body must be valid JSON"@)
}

pub open spec fn invalid_request_payload(message: Seq<char>) -> JsonV {
    error_body(seq![("message"@, jstr(message)), ("type"@, jstr("invalid_request_error"@))])
}

pub open spec fn body_too_large_payload() -> JsonV {
    error_body(
        seq![
            ("code"@, jstr("request_body_too_large"@)),
            ("message"@, jstr(body_too_large_hint())),
            ("type"@, jstr("invalid_request_error"@)),
        ],
    )
}

pub open spec fn prompt_too_large_payload() -> JsonV {
    error_body(
        seq![
            ("code"@, jstr("prompt_too_large"@)),
            ("message"@, jstr(prompt_too_large_hint())),
            ("type"@, jstr("invalid_request_error"@)),
        ],
    )
}

pub open spec fn upstream_error_payload(detail: Seq<char>) -> JsonV {
    error_body(
        seq![
            ("detail"@, jstr(detail)),
            ("message"@, jstr("Codex CLI request failed"@)),
            ("type"@, jstr("upstream_error"@)),
        ],
    )
}

pub open spec fn health_payload() -> JsonV {
    JsonV::Object(seq![("ok"@, JsonV::Bool(true))])
}

/// The one model the bridge offers.
pub open spec fn models_payload_value() -> JsonV {
    JsonV::Object(
        seq![
            (
                "data"@,
                JsonV::Array(
                    seq![
                        JsonV::Object(
                            seq![
                                ("created"@, JsonV::UInt(0)),
                                ("id"@, jstr("gpt2cursor-local"@)),
                                ("object"@, jstr("model"@)),
                                ("owned_by"@, jstr("local-codex"@)),
                            ],
                        ),
                    ],
                ),
            ),
            ("object"@, jstr("list"@)),
        ],
    )
}

/// `chatcmpl-<created>`.
pub open spec fn completion_id(created: u64) -> Seq<char> {
    "chatcmpl-"@ + text::decimal(created as nat)
}

/// The answer to a non-streaming chat request.
pub open spec fn completion_payload(
    created: u64,
    model: Seq<char>,
    answer: Seq<char>,
    usage: TokenUsage,
    duration_ms: u64,
) -> JsonV {
    JsonV::Object(
        seq![
            (
                "choices"@,
                JsonV::Array(
                    seq![
                        JsonV::Object(
                            seq![
                                ("finish_reason"@, jstr("stop"@)),
                                ("index"@, JsonV::UInt(0)),
                                (
                                    "message"@,
                                    JsonV::Object(
                                        seq![
                                            ("content"@, jstr(answer)),
                                            ("role"@, jstr("assistant"@)),
                                        ],
                                    ),
                                ),
                            ],
                        ),
                    ],
                ),
            ),
            ("created"@, JsonV::UInt(created)),
            (
                "gpt2cursor"@,
                JsonV::Object(
                    seq![
                        ("cached_input_tokens"@, JsonV::UInt(usage.cached_input_tokens)),
                        ("duration_ms"@, JsonV::UInt(duration_ms)),
                        ("reasoning_output_tokens"@, JsonV::UInt(usage.reasoning_output_tokens)),
                    ],
                ),
            ),
            ("id"@, jstr(completion_id(created))),
            ("model"@, jstr(model)),
            ("object"@, jstr("chat.completion"@)),
            (
                "usage"@,
                JsonV::Object(
                    seq![
                        ("completion_tokens"@, JsonV::UInt(usage.output_tokens)),
                        ("prompt_tokens"@, JsonV::UInt(usage.input_tokens)),
                        (
                            "total_tokens"@,
                            JsonV::UInt((usage.input_tokens + usage.output_tokens) as u64),
                        ),
                    ],
                ),
            ),
        ],
    )
}

/// One streamed chunk.
pub open spec fn chunk_payload(
    id: Seq<char>,
    created: u64,
    model: Seq<char>,
    delta: JsonV,
    finish: JsonV,
) -> JsonV {
    JsonV::Object(
        seq![
            (
                "choices"@,
                JsonV::Array(
                    seq![
                        JsonV::Object(
                            seq![
                                ("delta"@, delta),
                                ("finish_reason"@, finish),
                                ("index"@, JsonV::UInt(0)),
                            ],
                        ),
                    ],
                ),
            ),
            ("created"@, JsonV::UInt(created)),
            ("id"@, jstr(id)),
            ("model"@, jstr(model)),
            ("object"@, jstr("chat.completion.chunk"@)),
        ],
    )
}

/// A delta with one string field.
pub open spec fn delta1(key: Seq<char>, value: Seq<char>) -> JsonV {
    JsonV::Object(seq![(key, jstr(value))])
}

fn error_of(fields: Vec<(String, Json)>) -> (r: Json)
    ensures
        r@ == error_body(field_views(fields@)),
{
    let inner = object(fields);
    let ghost iv = inner@;
    let mut outer: Vec<(String, Json)> = Vec::new();
    outer.push(field("error", inner));
    let r = object(outer);
    assert(field_views(outer@) =~= seq![("error"@, iv)]);
    r
}

/// `{"error":{"message":...,"type":"authentication_error"}}`.
pub fn unauthorized_json() -> (r: Json)
    ensures
        r@ == unauthorized_payload(),
{
    let mut f: Vec<(String, Json)> = Vec::new();
    f.push(field("message", str_value("Missing or invalid bearer token")));
    f.push(field("type", str_value("authentication_error")));
    assert(field_views(f@) =~= seq![
        ("message"@, jstr("Missing or invalid bearer token"@)),
        ("type"@, jstr("authentication_error"@)),
    ]);
    error_of(f)
}

/// `{"error":{"message":"Route not found","type":"not_found"}}`.
pub fn not_found_json() -> (r: Json)
    ensures
        r@ == not_found_payload(),
{
    let mut f: Vec<(String, Json)> = Vec::new();
    f.push(field("message", str_value("Route not found")));
    f.push(field("type", str_value("not_found")));
    assert(field_views(f@) =~= seq![("message"@, jstr("Route not found"@)), ("type"@, jstr("not_found"@))]);
    error_of(f)
}

/// An `invalid_request_error` with the given message.
pub fn invalid_request_json(message: &str) -> (r: Json)
    ensures
        r@ == invalid_request_payload(message@),
{
    let mut f: Vec<(String, Json)> = Vec::new();
    f.push(field("message", str_value(message)));
    f.push(field("type", str_value("invalid_request_error")));
    assert(field_views(f@) =~= seq![("message"@, jstr(message@)), ("type"@, jstr("invalid_request_error"@))]);
    error_of(f)
}

/// The 400 answer to a body that is not JSON.
pub fn invalid_json_json() -> (r: Json)
    ensures
        r@ == invalid_json_payload(),
{
    invalid_request_json("Request body must be valid JSON")
}

/// The 413 answer to an oversized body (`body_too_large_error_json`).
pub fn body_too_large_error_json() -> (r: Json)
    ensures
        r@ == body_too_large_payload(),
{
    let mut f: Vec<(String, Json)> = Vec::new();
    f.push(field("code", str_value("request_body_too_large")));
    f.push(
        field(
            "message",
            str_value(
                "Request body too large. Lower Context msgs in gpt2cursor, or start a new Cursor Agent chat.",
            ),
        ),
    );
    f.push(field("type", str_value("invalid_request_error")));
    assert(field_views(f@) =~= seq![
        ("code"@, jstr("request_body_too_large"@)),
        ("message"@, jstr(body_too_large_hint())),
        ("type"@, jstr("invalid_request_error"@)),
    ]);
    error_of(f)
}

/// The 413 answer to a prompt that is too long after trimming.
pub fn prompt_too_large_json() -> (r: Json)
    ensures
        r@ == prompt_too_large_payload(),
{
    let mut f: Vec<(String, Json)> = Vec::new();
    f.push(field("code", str_value("prompt_too_large")));
    f.push(
        field(
            "message",
            str_value(
                "Prompt too large after trimming. Lower Context msgs in gpt2cursor, or start a new Cursor Agent chat.",
            ),
        ),
    );
    f.push(field("type", str_value("invalid_request_error")));
    assert(field_views(f@) =~= seq![
        ("code"@, jstr("prompt_too_large"@)),
        ("message"@, jstr(prompt_too_large_hint())),
        ("type"@, jstr("invalid_request_error"@)),
    ]);
    error_of(f)
}

/// The 502 answer when Codex fails.
pub fn upstream_error_json(detail: &str) -> (r: Json)
    ensures
        r@ == upstream_error_payload(detail@),
{
    let mut f: Vec<(String, Json)> = Vec::new();
    f.push(field("detail", str_value(detail)));
    f.push(field("message", str_value("Codex CLI request failed")));
    f.push(field("type", str_value("upstream_error")));
    assert(field_views(f@) =~= seq![
        ("detail"@, jstr(detail@)),
        ("message"@, jstr("Codex CLI request failed"@)),
        ("type"@, jstr("upstream_error"@)),
    ]);
    error_of(f)
}

/// `{"ok":true}`.
pub fn health_json() -> (r: Json)
    ensures
        r@ == health_payload(),
{
    let mut f: Vec<(String, Json)> = Vec::new();
    f.push(field("ok", Json::Bool(true)));
    assert(field_views(f@) =~= seq![("ok"@, JsonV::Bool(true))]);
    object(f)
}

/// The model list (`models_payload`).
pub fn models_payload() -> (r: Json)
    ensures
        r@ == models_payload_value(),
{
    let mut m: Vec<(String, Json)> = Vec::new();
    m.push(field("created", Json::UInt(0)));
    m.push(field("id", str_value("gpt2cursor-local")));
    m.push(field("object", str_value("model")));
    m.push(field("owned_by", str_value("local-codex")));
    let ghost mv = field_views(m@);
    let model = object(m);
    let ghost model_v = model@;
    let mut items: Vec<Json> = Vec::new();
    items.push(model);
    let data = array(items);
    assert(views(items@) =~= seq![model_v]);
    let ghost data_v = data@;
    let mut f: Vec<(String, Json)> = Vec::new();
    f.push(field("data", data));
    f.push(field("object", str_value("list")));
    let r = object(f);
    assert(mv =~= seq![
        ("created"@, JsonV::UInt(0)),
        ("id"@, jstr("gpt2cursor-local"@)),
        ("object"@, jstr("model"@)),
        ("owned_by"@, jstr("local-codex"@)),
    ]);
    assert(field_views(f@) =~= seq![("data"@, data_v), ("object"@, jstr("list"@))]);
    r
}

/// `chatcmpl-<created>`.
pub fn completion_id_string(created: u64) -> (r: String)
    ensures
        r@ == completion_id(created),
{
    let mut r = text::owned("chatcmpl-");
    text::push_decimal(&mut r, created);
    r
}

/// The answer to a non-streaming chat request.
pub fn completion_json(
    created: u64,
    model: &str,
    answer: &str,
    usage: &TokenUsage,
    duration_ms: u64,
) -> (r: Json)
    requires
        usage.input_tokens + usage.output_tokens <= u64::MAX,
    ensures
        r@ == completion_payload(created, model@, answer@, *usage, duration_ms),
{
    let mut msg: Vec<(String, Json)> = Vec::new();
    msg.push(field("content", str_value(answer)));
    msg.push(field("role", str_value("assistant")));
    assert(field_views(msg@) =~= seq![("content"@, jstr(answer@)), ("role"@, jstr("assistant"@))]);
    let message = object(msg);
    let ghost message_v = message@;
    let mut choice: Vec<(String, Json)> = Vec::new();
    choice.push(field("finish_reason", str_value("stop")));
    choice.push(field("index", Json::UInt(0)));
    choice.push(field("message", message));
    assert(field_views(choice@) =~= seq![
        ("finish_reason"@, jstr("stop"@)),
        ("index"@, JsonV::UInt(0)),
        ("message"@, message_v),
    ]);
    let choice_obj = object(choice);
    let ghost choice_v = choice_obj@;
    let mut choices: Vec<Json> = Vec::new();
    choices.push(choice_obj);
    assert(views(choices@) =~= seq![choice_v]);
    let choices = array(choices);
    let ghost choices_v = choices@;
    let mut extra: Vec<(String, Json)> = Vec::new();
    extra.push(field("cached_input_tokens", Json::UInt(usage.cached_input_tokens)));
    extra.push(field("duration_ms", Json::UInt(duration_ms)));
    extra.push(field("reasoning_output_tokens", Json::UInt(usage.reasoning_output_tokens)));
    assert(field_views(extra@) =~= seq![
        ("cached_input_tokens"@, JsonV::UInt(usage.cached_input_tokens)),
        ("duration_ms"@, JsonV::UInt(duration_ms)),
        ("reasoning_output_tokens"@, JsonV::UInt(usage.reasoning_output_tokens)),
    ]);
    let extra = object(extra);
    let ghost extra_v = extra@;
    let mut counts: Vec<(String, Json)> = Vec::new();
    counts.push(field("completion_tokens", Json::UInt(usage.output_tokens)));
    counts.push(field("prompt_tokens", Json::UInt(usage.input_tokens)));
    counts.push(field("total_tokens", Json::UInt(usage.input_tokens + usage.output_tokens)));
    assert(field_views(counts@) =~= seq![
        ("completion_tokens"@, JsonV::UInt(usage.output_tokens)),
        ("prompt_tokens"@, JsonV::UInt(usage.input_tokens)),
        ("total_tokens"@, JsonV::UInt((usage.input_tokens + usage.output_tokens) as u64)),
    ]);
    let counts = object(counts);
    let ghost counts_v = counts@;
    let id = completion_id_string(created);
    let mut f: Vec<(String, Json)> = Vec::new();
    f.push(field("choices", choices));
    f.push(field("created", Json::UInt(created)));
    f.push(field("gpt2cursor", extra));
    f.push(field("id", Json::Str(id)));
    f.push(field("model", str_value(model)));
    f.push(field("object", str_value("chat.completion")));
    f.push(field("usage", counts));
    assert(field_views(f@) =~= seq![
        ("choices"@, choices_v),
        ("created"@, JsonV::UInt(created)),
        ("gpt2cursor"@, extra_v),
        ("id"@, jstr(completion_id(created))),
        ("model"@, jstr(model@)),
        ("object"@, jstr("chat.completion"@)),
        ("usage"@, counts_v),
    ]);
    object(f)
}

/// One streamed chunk.
pub fn chunk_json(id: &str, created: u64, model: &str, delta: Json, finish: Json) -> (r: Json)
    ensures
        r@ == chunk_payload(id@, created, model@, delta@, finish@),
{
    let ghost delta_v = delta@;
    let ghost finish_v = finish@;
    let mut choice: Vec<(String, Json)> = Vec::new();
    choice.push(field("delta", delta));
    choice.push(field("finish_reason", finish));
    choice.push(field("index", Json::UInt(0)));
    assert(field_views(choice@) =~= seq![
        ("delta"@, delta_v),
        ("finish_reason"@, finish_v),
        ("index"@, JsonV::UInt(0)),
    ]);
    let choice_obj = object(choice);
    let ghost choice_v = choice_obj@;
    let mut choices: Vec<Json> = Vec::new();
    choices.push(choice_obj);
    assert(views(choices@) =~= seq![choice_v]);
    let choices = array(choices);
    let ghost choices_v = choices@;
    let mut f: Vec<(String, Json)> = Vec::new();
    f.push(field("choices", choices));
    f.push(field("created", Json::UInt(created)));
    f.push(field("id", str_value(id)));
    f.push(field("model", str_value(model)));
    f.push(field("object", str_value("chat.completion.chunk")));
    assert(field_views(f@) =~= seq![
        ("choices"@, choices_v),
        ("created"@, JsonV::UInt(created)),
        ("id"@, jstr(id@)),
        ("model"@, jstr(model@)),
        ("object"@, jstr("chat.completion.chunk"@)),
    ]);
    object(f)
}

/// A delta object with one string field.
pub fn delta_json(key: &str, value: &str) -> (r: Json)
    ensures
        r@ == delta1(key@, value@),
{
    let mut f: Vec<(String, Json)> = Vec::new();
    f.push(field(key, str_value(value)));
    assert(field_views(f@) =~= seq![(key@, jstr(value@))]);
    object(f)
}

/// An empty object.
pub fn empty_object() -> (r: Json)
    ensures
        r@ == JsonV::Object(Seq::empty()),
{
    let f: Vec<(String, Json)> = Vec::new();
    assert(field_views(f@) =~= Seq::<(Seq<char>, JsonV)>::empty());
    object(f)
}

/// The `message` of a completion's one and only choice.
pub open spec fn only_choice_message(p: JsonV) -> Option<JsonV> {
    match crate::json::jget(p, "choices"@) {
        Some(JsonV::Array(cs)) => if cs.len() == 1 {
            crate::json::jget(cs[0], "message"@)
        } else {
            None
        },
        _ => None,
    }
}

/// A completion reports the run's tokens as OpenAI does: `prompt_tokens` is
/// the input count, `completion_tokens` the output count, `total_tokens`
/// their sum; and its one choice carries the answer as the assistant's message.
pub proof fn law_completion_reports_run(
    created: u64,
    model: Seq<char>,
    answer: Seq<char>,
    usage: TokenUsage,
    duration_ms: u64,
)
    requires
        usage.input_tokens + usage.output_tokens <= u64::MAX,
    ensures
        ({
            let p = completion_payload(created, model, answer, usage, duration_ms);
            &&& crate::json::jget(p, "usage"@) is Some
            &&& crate::json::get_u64(crate::json::jget(p, "usage"@)->0, "prompt_tokens"@) == Some(
                usage.input_tokens,
            )
            &&& crate::json::get_u64(crate::json::jget(p, "usage"@)->0, "completion_tokens"@) == Some(
                usage.output_tokens,
            )
            &&& crate::json::get_u64(crate::json::jget(p, "usage"@)->0, "total_tokens"@) == Some(
                (usage.input_tokens + usage.output_tokens) as u64,
            )
            &&& crate::json::jget(p, "model"@) == Some(jstr(model))
            &&& crate::json::jget(p, "id"@) == Some(jstr(completion_id(created)))
            &&& crate::json::jget(p, "created"@) == Some(JsonV::UInt(created))
            &&& crate::json::jget(p, "object"@) == Some(jstr("chat.completion"@))
            &&& only_choice_message(p) is Some
            &&& crate::json::get_str(only_choice_message(p)->0, "content"@) == Some(answer)
            &&& crate::json::get_str(only_choice_message(p)->0, "role"@) == Some("assistant"@)
        }),
{
    reveal_strlit("usage");
    reveal_strlit("prompt_tokens");
    reveal_strlit("completion_tokens");
    reveal_strlit("total_tokens");
    reveal_strlit("choices");
    reveal_strlit("created");
    reveal_strlit("gpt2cursor");
    reveal_strlit("id");
    reveal_strlit("model");
    reveal_strlit("object");
    reveal_strlit("message");
    reveal_strlit("content");
    reveal_strlit("role");
    reveal_strlit("finish_reason");
    reveal_strlit("index");
    let p = completion_payload(created, model, answer, usage, duration_ms);
    let fs = p->Object_0;
    assert(fs[0].0 != "usage"@ && fs[1].0 != "usage"@ && fs[2].0 != "usage"@ && fs[3].0
        != "usage"@ && fs[4].0 != "usage"@ && fs[5].0 != "usage"@) by {
        assert(fs[0].0[0] != "usage"@[0]);
        assert(fs[1].0[0] != "usage"@[0]);
        assert(fs[2].0[0] != "usage"@[0]);
        assert(fs[3].0[0] != "usage"@[0]);
        assert(fs[4].0[0] != "usage"@[0]);
        assert(fs[5].0[0] != "usage"@[0]);
    }
    crate::json::lemma_find_field_at(fs, "usage"@, 6);
    let us = fs[6].1->Object_0;
    assert(us[0].0 == "completion_tokens"@);
    crate::json::lemma_find_field_at(us, "completion_tokens"@, 0);
    assert(us[0].0[0] != "prompt_tokens"@[0]);
    crate::json::lemma_find_field_at(us, "prompt_tokens"@, 1);
    assert(us[0].0[0] != "total_tokens"@[0] && us[1].0[0] != "total_tokens"@[0]);
    crate::json::lemma_find_field_at(us, "total_tokens"@, 2);
    crate::json::lemma_find_field_at(fs, "choices"@, 0);
    assert(fs[0].0[1] != "created"@[1]);
    crate::json::lemma_find_field_at(fs, "created"@, 1);
    assert(fs[0].0[0] != "model"@[0] && fs[1].0[0] != "model"@[0] && fs[2].0[0] != "model"@[0]
        && fs[3].0[0] != "model"@[0]);
    crate::json::lemma_find_field_at(fs, "model"@, 4);
    assert(fs[0].0[0] != "id"@[0] && fs[1].0[0] != "id"@[0] && fs[2].0[0] != "id"@[0]);
    crate::json::lemma_find_field_at(fs, "id"@, 3);
    assert(fs[0].0[0] != "object"@[0] && fs[1].0[0] != "object"@[0] && fs[2].0[0] != "object"@[0]
        && fs[3].0[0] != "object"@[0] && fs[4].0[0] != "object"@[0]);
    crate::json::lemma_find_field_at(fs, "object"@, 5);
    let cs = fs[0].1->Array_0;
    let c = cs[0]->Object_0;
    assert(c[0].0[0] != "message"@[0] && c[1].0[0] != "message"@[0]);
    crate::json::lemma_find_field_at(c, "message"@, 2);
    let m = c[2].1->Object_0;
    crate::json::lemma_find_field_at(m, "content"@, 0);
    assert(m[0].0[0] != "role"@[0]);
    crate::json::lemma_find_field_at(m, "role"@, 1);
}

} // verus!
