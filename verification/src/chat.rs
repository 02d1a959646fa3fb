//! Reading an OpenAI-style chat request (or a Responses-style `input` list)
//! into plain-text chat messages.

use vstd::prelude::*;

use crate::codex::{
    at_least_one, last_n, truncatable, truncate_message_content, truncated_content, ChatMessage,
    ChatMessageV, messages_view,
};
use crate::json::{
    get_arr, get_bool, get_str, jarr, jget, json_serialize, jstr, lemma_jget_decreases, views, Json,
    JsonV,
};
use crate::text;

verus! {

/// The model name the bridge advertises and assumes when a request names none.
pub open spec fn cursor_model_id() -> Seq<char> {
    "gpt2cursor-local"@
}

/// A parsed chat request.
#[derive(Debug)]
pub struct ChatRequest {
    pub model: String,
    pub messages: Vec<ChatMessage>,
    pub stream: bool,
}

/// The model of a [`ChatRequest`].
pub struct ChatRequestV {
    pub model: Seq<char>,
    pub messages: Seq<ChatMessageV>,
    pub stream: bool,
}

impl View for ChatRequest {
    type V = ChatRequestV;

    open spec fn view(&self) -> ChatRequestV {
        ChatRequestV {
            model: self.model@,
            messages: messages_view(self.messages@),
            stream: self.stream,
        }
    }
}

/// `o.unwrap_or(d)`.
pub open spec fn or_default(o: Option<Seq<char>>, d: Seq<char>) -> Seq<char> {
    match o {
        Some(s) => s,
        None => d,
    }
}

/// `v.get(a).or_else(|| v.get(b))`.
pub open spec fn jget_or(v: JsonV, a: Seq<char>, b: Seq<char>) -> Option<JsonV> {
    match jget(v, a) {
        Some(x) => Some(x),
        None => jget(v, b),
    }
}

/// `o.and_then(Value::as_str)`.
pub open spec fn opt_str(o: Option<JsonV>) -> Option<Seq<char>> {
    match o {
        Some(x) => jstr(x),
        None => None,
    }
}

/// `o.map(ToString::to_string)`: the compact JSON text of the value.
pub open spec fn opt_text(o: Option<JsonV>) -> Option<Seq<char>> {
    match o {
        Some(x) => Some(json_serialize(x)),
        None => None,
    }
}

/// `o.filter(|t| !t.trim().is_empty())`.
pub open spec fn non_blank(o: Option<Seq<char>>) -> Option<Seq<char>> {
    match o {
        Some(t) => if text::is_blank(t) {
            None
        } else {
            Some(t)
        },
        None => None,
    }
}

/// `{"content": content, "role": role}`; fields in the order `serde_json` keeps them.
pub open spec fn role_content(role: Seq<char>, content: JsonV) -> JsonV {
    JsonV::Object(seq![("content"@, content), ("role"@, JsonV::Str(role))])
}

/// One Responses-API input item as a chat message, if it stands for one.
pub open spec fn converted_item(item: JsonV) -> Option<JsonV> {
    let t = or_default(get_str(item, "type"@), Seq::empty());
    if t == "message"@ {
        let role = or_default(get_str(item, "role"@), "user"@);
        let content = match jget_or(item, "content"@, "text"@) {
            Some(c) => c,
            None => JsonV::Str(Seq::empty()),
        };
        Some(role_content(role, content))
    } else if t == "function_call"@ || t == "tool_call"@ || t == "tool_use"@ {
        let name = or_default(opt_str(jget_or(item, "name"@, "tool_name"@)), "tool"@);
        let args = or_default(opt_text(jget_or(item, "arguments"@, "input"@)), "{}"@);
        Some(role_content("assistant"@, JsonV::Str("[tool_call "@ + name + "]: "@ + args)))
    } else if t == "function_call_output"@ || t == "tool_result"@ {
        let content = or_default(opt_text(jget_or(item, "output"@, "content"@)), json_serialize(item));
        Some(role_content("tool"@, JsonV::Str(content)))
    } else {
        match get_str(item, "text"@) {
            Some(text) => Some(role_content("user"@, JsonV::Str(text))),
            None => None,
        }
    }
}

/// The chat messages that a Responses-API input list stands for.
pub open spec fn converted_items(items: Seq<JsonV>) -> Seq<JsonV>
    decreases items.len(),
{
    if items.len() == 0 {
        Seq::empty()
    } else {
        let r = converted_items(items.drop_last());
        match converted_item(items.last()) {
            Some(m) => r.push(m),
            None => r,
        }
    }
}

pub open spec fn is_system_raw(m: JsonV) -> bool {
    get_str(m, "role"@) == Some("system"@)
}

/// The raw messages that are (`want_system`) or are not system messages, in order.
pub open spec fn select_raw(ms: Seq<JsonV>, want_system: bool) -> Seq<JsonV>
    decreases ms.len(),
{
    if ms.len() == 0 {
        Seq::empty()
    } else if is_system_raw(ms.last()) == want_system {
        select_raw(ms.drop_last(), want_system).push(ms.last())
    } else {
        select_raw(ms.drop_last(), want_system)
    }
}

/// At most `max` raw messages: all system messages, then the most recent
/// others (at least one).
pub open spec fn tail_raw(ms: Seq<JsonV>, max: nat) -> Seq<JsonV> {
    if ms.len() <= max {
        ms
    } else {
        let system = select_raw(ms, true);
        let rest = select_raw(ms, false);
        let budget = at_least_one(if max >= system.len() { (max - system.len()) as nat } else { 0 });
        system + last_n(rest, budget)
    }
}

/// The text of a `content` value: a string as it is, the non-blank texts of
/// a list of parts joined by newlines, or the text of a single part.
pub open spec fn content_value(v: JsonV) -> Option<Seq<char>>
    decreases v, 1nat,
{
    match v {
        JsonV::Str(t) => Some(t),
        JsonV::Array(parts) => {
            let texts = part_texts(parts);
            if texts.len() == 0 {
                None
            } else {
                Some(text::join(texts, "\n"@))
            }
        },
        JsonV::Object(_) => content_part(v),
        _ => None,
    }
}

/// The texts of the parts that yield one.
pub open spec fn part_texts(parts: Seq<JsonV>) -> Seq<Seq<char>>
    decreases parts, 0nat,
{
    if parts.len() == 0 {
        Seq::empty()
    } else {
        let r = part_texts(parts.drop_last());
        match content_part(parts.last()) {
            Some(t) => r.push(t),
            None => r,
        }
    }
}

/// A list of content parts reads as the texts of its parts in order, one
/// per line: a part with a text adds a newline and that text after what the
/// parts before it give (or stands alone when they give nothing); a part
/// without one changes nothing; an empty list gives no text. A part's
/// non-blank `text` is its text.
pub proof fn law_content_parts_each_add_a_line(parts: Seq<JsonV>, p: JsonV)
    ensures
        content_value(JsonV::Array(Seq::empty())) is None,
        get_str(p, "text"@) is Some && !text::is_blank(get_str(p, "text"@)->0) ==> content_part(p)
            == get_str(p, "text"@),
        content_part(p) matches Some(t) ==> content_value(JsonV::Array(parts.push(p))) == Some(
            match content_value(JsonV::Array(parts)) {
                Some(x) => x + "\n"@ + t,
                None => t,
            },
        ),
        content_part(p) is None ==> content_value(JsonV::Array(parts.push(p))) == content_value(
            JsonV::Array(parts),
        ),
{
    assert(parts.push(p).drop_last() =~= parts);
    assert(parts.push(p).last() == p);
    let texts = part_texts(parts);
    match content_part(p) {
        Some(t) => {
            assert(part_texts(parts.push(p)) == texts.push(t));
            if texts.len() == 0 {
                assert(texts.push(t) =~= seq![t]);
            } else {
                assert(texts.push(t).drop_last() =~= texts);
            }
        },
        None => {},
    }
}

/// The text of one content part.
pub open spec fn content_part(p: JsonV) -> Option<Seq<char>>
    decreases p, 0nat,
{
    if non_blank(get_str(p, "text"@)) is Some {
        non_blank(get_str(p, "text"@))
    } else if non_blank(get_str(p, "input_text"@)) is Some {
        non_blank(get_str(p, "input_text"@))
    } else if non_blank(get_str(p, "output_text"@)) is Some {
        non_blank(get_str(p, "output_text"@))
    } else if non_blank(get_str(p, "content"@)) is Some {
        non_blank(get_str(p, "content"@))
    } else {
        let t = or_default(get_str(p, "type"@), Seq::empty());
        if t == "text"@ || t == "input_text"@ || t == "output_text"@ {
            let found = match jget(p, "text"@) {
                Some(x) => Some(x),
                None => jget_or(p, "input_text"@, "output_text"@),
            };
            non_blank(opt_str(found))
        } else if t == "image_url"@ || t == "image"@ || t == "input_image"@ {
            Some("[image]"@)
        } else if t == "tool_use"@ || t == "tool_call"@ || t == "function_call"@ {
            let name = or_default(opt_str(jget_or(p, "name"@, "tool_name"@)), "tool"@);
            let input = or_default(opt_text(jget_or(p, "input"@, "arguments"@)), Seq::empty());
            Some("[tool_call "@ + name + "]: "@ + input)
        } else if t == "tool_result"@ || t == "function_call_output"@ {
            let inner = match jget(p, "content"@) {
                Some(x) => {
                    proof {
                        lemma_jget_decreases(p, "content"@);
                    }
                    content_value(x)
                },
                None => match jget(p, "output"@) {
                    Some(x) => {
                        proof {
                            lemma_jget_decreases(p, "output"@);
                        }
                        content_value(x)
                    },
                    None => None,
                },
            };
            Some("[tool_result]: "@ + or_default(inner, json_serialize(p)))
        } else {
            None
        }
    }
}

/// One assistant tool call as a line of text.
pub open spec fn tool_call_line(call: JsonV) -> Seq<char> {
    let name_v = match jget(call, "function"@) {
        Some(f) => match jget(f, "name"@) {
            Some(n) => Some(n),
            None => jget(call, "name"@),
        },
        None => jget(call, "name"@),
    };
    let args_v = match jget(call, "function"@) {
        Some(f) => match jget(f, "arguments"@) {
            Some(a) => Some(a),
            None => jget_or(call, "arguments"@, "input"@),
        },
        None => jget_or(call, "arguments"@, "input"@),
    };
    "[tool_call "@ + or_default(opt_str(name_v), "tool"@) + "]: "@ + or_default(
        opt_text(args_v),
        "{}"@,
    )
}

/// All tool calls, one line each.
pub open spec fn tool_calls_text(calls: Seq<JsonV>) -> Seq<char> {
    text::join(Seq::new(calls.len(), |i: int| tool_call_line(calls[i])), "\n"@)
}

/// A legacy `function_call` as a line of text.
pub open spec fn function_call_text(fc: JsonV) -> Seq<char> {
    "[function_call "@ + or_default(get_str(fc, "name"@), "function"@) + "]: "@ + or_default(
        opt_text(jget(fc, "arguments"@)),
        "{}"@,
    )
}

/// The content text of `content` if it is not blank.
pub open spec fn message_content_text(m: JsonV) -> Option<Seq<char>> {
    match jget(m, "content"@) {
        Some(c) => non_blank(content_value(c)),
        None => None,
    }
}

/// What a message says: its content, else its tool calls, else its
/// function call, else (for tool messages) its content under the tool's
/// name, else its refusal.
pub open spec fn extracted_content(m: JsonV) -> Option<Seq<char>> {
    if message_content_text(m) is Some {
        message_content_text(m)
    } else if get_arr(m, "tool_calls"@) is Some && get_arr(m, "tool_calls"@)->0.len() > 0 {
        Some(tool_calls_text(get_arr(m, "tool_calls"@)->0))
    } else if jget(m, "function_call"@) is Some && !(jget(m, "function_call"@)->0 is Null) {
        Some(function_call_text(jget(m, "function_call"@)->0))
    } else if get_str(m, "role"@) == Some("tool"@) && message_content_text(m) is Some {
        let name = or_default(opt_str(jget_or(m, "name"@, "tool_call_id"@)), "tool"@);
        Some("["@ + name + "]: "@ + message_content_text(m)->0)
    } else {
        non_blank(get_str(m, "refusal"@))
    }
}

/// A message whose content is missing, null, blank or an empty list.
pub open spec fn explicitly_empty(m: JsonV) -> bool {
    match jget(m, "content"@) {
        None => true,
        Some(JsonV::Null) => true,
        Some(JsonV::Str(t)) => text::is_blank(t),
        Some(JsonV::Array(parts)) => parts.len() == 0,
        _ => false,
    }
}

/// The full text of message number `index`; a message with nothing readable
/// and no explicitly empty content is shown as its JSON.
pub open spec fn message_text(index: nat, m: JsonV) -> Seq<char> {
    match extracted_content(m) {
        Some(c) => c,
        None => if explicitly_empty(m) {
            Seq::empty()
        } else {
            "[message "@ + text::decimal(index) + "]: "@ + json_serialize(m)
        },
    }
}

/// Message number `index` as a chat message, content capped.
pub open spec fn parsed_message(index: nat, m: JsonV) -> ChatMessageV {
    ChatMessageV {
        role: or_default(get_str(m, "role"@), "unknown"@),
        content: truncated_content(message_text(index, m)),
    }
}

/// The first `n` raw messages parsed, blank ones left out.
pub open spec fn parsed_messages(raw: Seq<JsonV>, n: nat) -> Seq<ChatMessageV>
    decreases n,
{
    if n == 0 {
        Seq::empty()
    } else {
        let r = parsed_messages(raw, (n - 1) as nat);
        let pm = parsed_message((n - 1) as nat, raw[n - 1]);
        if text::is_blank(pm.content) {
            r
        } else {
            r.push(pm)
        }
    }
}

/// The raw message list: `messages`, else the converted `input` list.
pub open spec fn raw_messages(input: JsonV) -> Option<Seq<JsonV>> {
    match get_arr(input, "messages"@) {
        Some(ms) => Some(ms),
        None => match get_arr(input, "input"@) {
            Some(items) => Some(converted_items(items)),
            None => None,
        },
    }
}

/// The result of `parse_chat_request`.
pub open spec fn chat_request(input: JsonV, max_raw: nat) -> Result<ChatRequestV, Seq<char>> {
    let model = or_default(get_str(input, "model"@), cursor_model_id());
    let stream = match get_bool(input, "stream"@) {
        Some(b) => b,
        None => false,
    };
    match raw_messages(input) {
        None => Err("messages must include at least one message"@),
        Some(raw) => if raw.len() == 0 {
            Err("messages must include at least one message"@)
        } else {
            let tailed = tail_raw(raw, max_raw);
            let parsed = parsed_messages(tailed, tailed.len());
            if parsed.len() == 0 {
                Err("messages must include at least one message with text"@)
            } else {
                Ok(ChatRequestV { model, messages: parsed, stream })
            }
        },
    }
}

/// Every kept message's text can be capped without splitting a character.
pub open spec fn chat_requirement(input: JsonV, max_raw: nat) -> bool {
    match raw_messages(input) {
        Some(raw) => raw.len() == 0 || (forall|i: int|
            #![trigger tail_raw(raw, max_raw)[i]]
            0 <= i < tail_raw(raw, max_raw).len() ==> truncatable(
                message_text(i as nat, tail_raw(raw, max_raw)[i]),
            )),
        None => true,
    }
}

/// How many messages (or input items) a request carries before any trimming.
pub open spec fn incoming_count(input: JsonV) -> nat {
    match get_arr(input, "messages"@) {
        Some(ms) => ms.len(),
        None => match get_arr(input, "input"@) {
            Some(items) => items.len(),
            None => 0,
        },
    }
}


/// The model of an optional borrowed value.
pub open spec fn opt_view(o: Option<&Json>) -> Option<JsonV> {
    match o {
        Some(x) => Some(x@),
        None => None,
    }
}

/// The model of an optional string.
pub open spec fn opt_string(o: Option<String>) -> Option<Seq<char>> {
    match o {
        Some(s) => Some(s@),
        None => None,
    }
}

/// The model of an optional string slice.
pub open spec fn opt_slice(o: Option<&str>) -> Option<Seq<char>> {
    match o {
        Some(s) => Some(s@),
        None => None,
    }
}

fn get<'a>(v: &'a Json, key: &str) -> (r: Option<&'a Json>)
    ensures
        opt_view(r) == jget(v@, key@),
{
    v.get(key)
}

fn get_either<'a>(v: &'a Json, a: &str, b: &str) -> (r: Option<&'a Json>)
    ensures
        opt_view(r) == jget_or(v@, a@, b@),
{
    match get(v, a) {
        Some(x) => Some(x),
        None => get(v, b),
    }
}

fn as_str_of<'a>(o: Option<&'a Json>) -> (r: Option<&'a str>)
    ensures
        opt_slice(r) == opt_str(opt_view(o)),
{
    match o {
        Some(x) => x.as_str(),
        None => None,
    }
}

fn text_of(o: Option<&Json>) -> (r: Option<String>)
    ensures
        opt_string(r) == opt_text(opt_view(o)),
{
    match o {
        Some(x) => Some(crate::json::to_json_text(x)),
        None => None,
    }
}

fn str_or(o: Option<&str>, d: &str) -> (r: String)
    ensures
        r@ == or_default(opt_slice(o), d@),
{
    match o {
        Some(s) => text::owned(s),
        None => text::owned(d),
    }
}

fn string_or(o: Option<String>, d: &str) -> (r: String)
    ensures
        r@ == or_default(opt_string(o), d@),
{
    match o {
        Some(s) => s,
        None => text::owned(d),
    }
}

fn keep_non_blank(o: Option<&str>) -> (r: Option<String>)
    ensures
        opt_string(r) == non_blank(opt_slice(o)),
{
    match o {
        Some(t) => if text::str_is_blank(t) {
            None
        } else {
            Some(text::owned(t))
        },
        None => None,
    }
}

fn keep_non_blank_string(o: Option<String>) -> (r: Option<String>)
    ensures
        opt_string(r) == non_blank(opt_string(o)),
{
    match o {
        Some(t) => if text::str_is_blank(t.as_str()) {
            None
        } else {
            Some(t)
        },
        None => None,
    }
}

/// Whether `t` is one of the given names.
fn is_one_of(t: &str, names: &[&str]) -> (r: bool)
    ensures
        r == text::views_of_strs(names@).contains(t@),
{
    text::strs_contain(names, t)
}

/// `"[tool_call {name}]: {args}"`.
fn tool_call_label(name: &str, args: &str) -> (r: String)
    ensures
        r@ == "[tool_call "@ + name@ + "]: "@ + args@,
{
    let mut r = text::owned("[tool_call ");
    text::push_str(&mut r, name);
    text::push_str(&mut r, "]: ");
    text::push_str(&mut r, args);
    r
}

/// The text of a `content` value (`extract_content_value`).
pub fn extract_content_value(value: &Json) -> (r: Option<String>)
    ensures
        opt_string(r) == content_value(value@),
    decreases value@, 1nat,
{
    match value {
        Json::Str(t) => Some(t.clone()),
        Json::Array(parts) => {
            proof {
                crate::json::lemma_array_view(*parts);
            }
            let ghost pv = views(parts@);
            let mut texts: Vec<String> = Vec::new();
            let mut i: usize = 0;
            assert(pv.take(0) =~= Seq::<JsonV>::empty());
            assert(text::views_of_strings(texts@) =~= Seq::<Seq<char>>::empty());
            while i < parts.len()
                invariant
                    i <= parts.len(),
                    pv == views(parts@),
                    value@ == JsonV::Array(pv),
                    text::views_of_strings(texts@) == part_texts(pv.take(i as int)),
                decreases parts.len() - i,
            {
                proof {
                    assert(decreases_to!(value@ => (value@)->Array_0));
                    assert(decreases_to!(pv => pv[i as int]));
                    assert(pv[i as int] == parts@[i as int]@);
                    assert(pv.take(i + 1).drop_last() =~= pv.take(i as int));
                    assert(pv.take(i + 1).last() == pv[i as int]);
                }
                let ghost before = text::views_of_strings(texts@);
                match extract_content_part(&parts[i]) {
                    Some(t) => {
                        let ghost tv = t@;
                        texts.push(t);
                        assert(text::views_of_strings(texts@) =~= before.push(tv));
                    },
                    None => {},
                }
                i = i + 1;
            }
            assert(pv.take(parts.len() as int) =~= pv);
            if texts.len() == 0 {
                None
            } else {
                Some(text::join_strings(&texts, "\n"))
            }
        },
        Json::Object(_) => extract_content_part(value),
        _ => None,
    }
}

/// The text of one content part (`extract_content_part`).
pub fn extract_content_part(part: &Json) -> (r: Option<String>)
    ensures
        opt_string(r) == content_part(part@),
    decreases part@, 0nat,
{
    let from_text = keep_non_blank(part.get_str("text"));
    if from_text.is_some() {
        return from_text;
    }
    let from_input = keep_non_blank(part.get_str("input_text"));
    if from_input.is_some() {
        return from_input;
    }
    let from_output = keep_non_blank(part.get_str("output_text"));
    if from_output.is_some() {
        return from_output;
    }
    let from_content = keep_non_blank(part.get_str("content"));
    if from_content.is_some() {
        return from_content;
    }
    let t = match part.get_str("type") {
        Some(t) => t,
        None => "",
    };
    let text_kinds: [&str; 3] = ["text", "input_text", "output_text"];
    let image_kinds: [&str; 3] = ["image_url", "image", "input_image"];
    let call_kinds: [&str; 3] = ["tool_use", "tool_call", "function_call"];
    let result_kinds: [&str; 2] = ["tool_result", "function_call_output"];
    proof {
        reveal_strlit("");
        assert(text::views_of_strs(text_kinds@) =~= seq!["text"@, "input_text"@, "output_text"@]);
        assert(text::views_of_strs(image_kinds@) =~= seq!["image_url"@, "image"@, "input_image"@]);
        assert(text::views_of_strs(call_kinds@) =~= seq!["tool_use"@, "tool_call"@, "function_call"@]);
        assert(text::views_of_strs(result_kinds@) =~= seq!["tool_result"@, "function_call_output"@]);
        assert(t@ == or_default(get_str(part@, "type"@), Seq::empty()));
    }
    if is_one_of(t, &text_kinds) {
        let found = match get(part, "text") {
            Some(x) => Some(x),
            None => get_either(part, "input_text", "output_text"),
        };
        keep_non_blank(as_str_of(found))
    } else if is_one_of(t, &image_kinds) {
        Some(text::owned("[image]"))
    } else if is_one_of(t, &call_kinds) {
        let name = str_or(as_str_of(get_either(part, "name", "tool_name")), "tool");
        let input = string_or(text_of(get_either(part, "input", "arguments")), "");
        proof {
            reveal_strlit("");
        }
        Some(tool_call_label(name.as_str(), input.as_str()))
    } else if is_one_of(t, &result_kinds) {
        let inner = match get(part, "content") {
            Some(x) => {
                proof {
                    lemma_jget_decreases(part@, "content"@);
                }
                extract_content_value(x)
            },
            None => match get(part, "output") {
                Some(x) => {
                    proof {
                        lemma_jget_decreases(part@, "output"@);
                    }
                    extract_content_value(x)
                },
                None => None,
            },
        };
        let content = match inner {
            Some(c) => c,
            None => crate::json::to_json_text(part),
        };
        let mut r = text::owned("[tool_result]: ");
        text::push_str(&mut r, content.as_str());
        Some(r)
    } else {
        None
    }
}

/// One tool call as a line of text.
fn tool_call_line_of(call: &Json) -> (r: String)
    ensures
        r@ == tool_call_line(call@),
{
    let function = get(call, "function");
    let name_v = match function {
        Some(f) => match get(f, "name") {
            Some(n) => Some(n),
            None => get(call, "name"),
        },
        None => get(call, "name"),
    };
    let args_v = match function {
        Some(f) => match get(f, "arguments") {
            Some(a) => Some(a),
            None => get_either(call, "arguments", "input"),
        },
        None => get_either(call, "arguments", "input"),
    };
    let name = str_or(as_str_of(name_v), "tool");
    let args = string_or(text_of(args_v), "{}");
    tool_call_label(name.as_str(), args.as_str())
}

/// Assistant tool calls as text, one line per call (`format_tool_calls`).
pub fn format_tool_calls(tool_calls: &Vec<Json>) -> (r: String)
    ensures
        r@ == tool_calls_text(views(tool_calls@)),
{
    let ghost cv = views(tool_calls@);
    let ghost lines = Seq::new(cv.len(), |i: int| tool_call_line(cv[i]));
    let mut out: Vec<String> = Vec::new();
    let mut i: usize = 0;
    while i < tool_calls.len()
        invariant
            i <= tool_calls.len(),
            cv == views(tool_calls@),
            lines == Seq::new(cv.len(), |i: int| tool_call_line(cv[i])),
            text::views_of_strings(out@) == lines.take(i as int),
        decreases tool_calls.len() - i,
    {
        let line = tool_call_line_of(&tool_calls[i]);
        let ghost before = out@;
        let ghost lv = line@;
        out.push(line);
        assert(text::views_of_strings(out@) =~= text::views_of_strings(before).push(lv));
        assert(lines[i as int] == lv);
        assert(text::views_of_strings(out@) =~= lines.take(i + 1));
        i = i + 1;
    }
    assert(lines.take(tool_calls.len() as int) =~= lines);
    text::join_strings(&out, "\n")
}

/// A legacy function call as text (`format_function_call`).
pub fn format_function_call(function_call: &Json) -> (r: String)
    ensures
        r@ == function_call_text(function_call@),
{
    let name = str_or(function_call.get_str("name"), "function");
    let arguments = string_or(text_of(get(function_call, "arguments")), "{}");
    let mut r = text::owned("[function_call ");
    text::push_str(&mut r, name.as_str());
    text::push_str(&mut r, "]: ");
    text::push_str(&mut r, arguments.as_str());
    r
}

fn content_text_of(message: &Json) -> (r: Option<String>)
    ensures
        opt_string(r) == message_content_text(message@),
{
    match get(message, "content") {
        Some(c) => keep_non_blank_string(extract_content_value(c)),
        None => None,
    }
}

/// What a message says, if anything (`extract_message_content`).
pub fn extract_message_content(message: &Json) -> (r: Option<String>)
    ensures
        opt_string(r) == extracted_content(message@),
{
    let first = content_text_of(message);
    if first.is_some() {
        return first;
    }
    match message.get_array("tool_calls") {
        Some(calls) => {
            if calls.len() > 0 {
                return Some(format_tool_calls(calls));
            }
        },
        None => {},
    }
    match get(message, "function_call") {
        Some(fc) => {
            if !fc.is_null() {
                return Some(format_function_call(fc));
            }
        },
        None => {},
    }
    let is_tool = match message.get_str("role") {
        Some(role) => text::str_eq(role, "tool"),
        None => false,
    };
    if is_tool {
        let name = str_or(as_str_of(get_either(message, "name", "tool_call_id")), "tool");
        match content_text_of(message) {
            Some(content) => {
                let mut r = text::owned("[");
                text::push_str(&mut r, name.as_str());
                text::push_str(&mut r, "]: ");
                text::push_str(&mut r, content.as_str());
                return Some(r);
            },
            None => {},
        }
    }
    keep_non_blank(message.get_str("refusal"))
}

/// Whether a message's content is missing, null, blank or an empty list.
pub fn is_explicitly_empty_content(message: &Json) -> (r: bool)
    ensures
        r == explicitly_empty(message@),
{
    match get(message, "content") {
        None => true,
        Some(Json::Null) => true,
        Some(Json::Str(t)) => text::str_is_blank(t.as_str()),
        Some(Json::Array(parts)) => {
            proof {
                crate::json::lemma_array_view(*parts);
            }
            parts.len() == 0
        },
        _ => false,
    }
}

/// The full text of message number `index`, before capping.
pub fn message_text_of(index: usize, message: &Json) -> (r: String)
    ensures
        r@ == message_text(index as nat, message@),
{
    match extract_message_content(message) {
        Some(c) => c,
        None => {
            if is_explicitly_empty_content(message) {
                String::new()
            } else {
                let mut r = text::owned("[message ");
                text::push_decimal(&mut r, index as u64);
                text::push_str(&mut r, "]: ");
                let serialized = crate::json::to_json_text(message);
                text::push_str(&mut r, serialized.as_str());
                r
            }
        },
    }
}

/// Message number `index` as a chat message (`parse_message`).
pub fn parse_message(index: usize, message: &Json) -> (r: ChatMessage)
    requires
        truncatable(message_text(index as nat, message@)),
    ensures
        r@ == parsed_message(index as nat, message@),
{
    let role = str_or(message.get_str("role"), "unknown");
    let content = message_text_of(index, message);
    ChatMessage { role, content: truncate_message_content(content.as_str()) }
}

/// The model of an optional value.
pub open spec fn opt_value(o: Option<Json>) -> Option<JsonV> {
    match o {
        Some(x) => Some(x@),
        None => None,
    }
}

fn role_content_value(role: &str, content: Json) -> (r: Json)
    ensures
        r@ == role_content(role@, content@),
{
    crate::json::object2("content", content, "role", crate::json::str_value(role))
}

fn convert_item(item: &Json) -> (r: Option<Json>)
    ensures
        opt_value(r) == converted_item(item@),
{
    let item_type = match item.get_str("type") {
        Some(t) => t,
        None => "",
    };
    let call_kinds: [&str; 3] = ["function_call", "tool_call", "tool_use"];
    let output_kinds: [&str; 2] = ["function_call_output", "tool_result"];
    proof {
        reveal_strlit("");
        assert(text::views_of_strs(call_kinds@) =~= seq!["function_call"@, "tool_call"@, "tool_use"@]);
        assert(text::views_of_strs(output_kinds@) =~= seq!["function_call_output"@, "tool_result"@]);
        assert(item_type@ == or_default(get_str(item@, "type"@), Seq::empty()));
    }
    if text::str_eq(item_type, "message") {
        let role = str_or(item.get_str("role"), "user");
        let content = match get_either(item, "content", "text") {
            Some(c) => c.copy(),
            None => Json::Str(String::new()),
        };
        Some(role_content_value(role.as_str(), content))
    } else if is_one_of(item_type, &call_kinds) {
        let name = str_or(as_str_of(get_either(item, "name", "tool_name")), "tool");
        let arguments = string_or(text_of(get_either(item, "arguments", "input")), "{}");
        let label = tool_call_label(name.as_str(), arguments.as_str());
        Some(role_content_value("assistant", Json::Str(label)))
    } else if is_one_of(item_type, &output_kinds) {
        let content = match text_of(get_either(item, "output", "content")) {
            Some(c) => c,
            None => crate::json::to_json_text(item),
        };
        Some(role_content_value("tool", Json::Str(content)))
    } else {
        match item.get_str("text") {
            Some(text) => Some(role_content_value("user", crate::json::str_value(text))),
            None => None,
        }
    }
}

/// Turns a Responses-API `input` list into chat messages
/// (`convert_input_to_messages`); it never fails.
pub fn convert_input_to_messages(items: &Vec<Json>) -> (r: Result<Vec<Json>, String>)
    ensures
        r is Ok,
        views(r->Ok_0@) == converted_items(views(items@)),
{
    let ghost iv = views(items@);
    let mut messages: Vec<Json> = Vec::new();
    let mut i: usize = 0;
    assert(iv.take(0) =~= Seq::<JsonV>::empty());
    assert(views(messages@) =~= Seq::<JsonV>::empty());
    while i < items.len()
        invariant
            i <= items.len(),
            iv == views(items@),
            views(messages@) == converted_items(iv.take(i as int)),
        decreases items.len() - i,
    {
        assert(iv.take(i + 1).drop_last() =~= iv.take(i as int));
        assert(iv.take(i + 1).last() == items@[i as int]@);
        let ghost before = views(messages@);
        match convert_item(&items[i]) {
            Some(m) => {
                let ghost mv = m@;
                messages.push(m);
                assert(views(messages@) =~= before.push(mv));
            },
            None => {},
        }
        i = i + 1;
    }
    assert(iv.take(items.len() as int) =~= iv);
    Ok(messages)
}

/// The role a raw message names, if it names one (`message_role`).
pub fn message_role(message: &Json) -> (r: Option<&str>)
    ensures
        opt_slice(r) == get_str(message@, "role"@),
{
    message.get_str("role")
}

fn is_system_raw_message(message: &Json) -> (r: bool)
    ensures
        r == is_system_raw(message@),
{
    match message_role(message) {
        Some(role) => text::str_eq(role, "system"),
        None => false,
    }
}

/// Keeps at most `max_messages` raw messages: every system message, then the
/// most recent others, at least one (`tail_raw_json_messages`).
pub fn tail_raw_json_messages(messages: Vec<Json>, max_messages: usize) -> (r: Vec<Json>)
    ensures
        views(r@) == tail_raw(views(messages@), max_messages as nat),
{
    if messages.len() <= max_messages {
        return messages;
    }
    let ghost mv = views(messages@);
    let mut system: Vec<Json> = Vec::new();
    let mut non_system: Vec<Json> = Vec::new();
    let mut i: usize = 0;
    assert(mv.take(0) =~= Seq::<JsonV>::empty());
    assert(views(system@) =~= Seq::<JsonV>::empty());
    assert(views(non_system@) =~= Seq::<JsonV>::empty());
    while i < messages.len()
        invariant
            i <= messages.len(),
            mv == views(messages@),
            views(system@) == select_raw(mv.take(i as int), true),
            views(non_system@) == select_raw(mv.take(i as int), false),
        decreases messages.len() - i,
    {
        assert(mv.take(i + 1).drop_last() =~= mv.take(i as int));
        assert(mv.take(i + 1).last() == messages@[i as int]@);
        let m = messages[i].copy();
        let ghost v = m@;
        let ghost sys_before = views(system@);
        let ghost rest_before = views(non_system@);
        if is_system_raw_message(&m) {
            system.push(m);
            assert(views(system@) =~= sys_before.push(v));
        } else {
            non_system.push(m);
            assert(views(non_system@) =~= rest_before.push(v));
        }
        i = i + 1;
    }
    assert(mv.take(messages.len() as int) =~= mv);
    let left = if max_messages >= system.len() { max_messages - system.len() } else { 0 };
    let budget = if left == 0 { 1 } else { left };
    let start = if non_system.len() > budget { non_system.len() - budget } else { 0 };
    let ghost expected = tail_raw(mv, max_messages as nat);
    let ghost sys_v = views(system@);
    let ghost tail_v = last_n(views(non_system@), budget as nat);
    assert(expected == sys_v + tail_v);
    let mut trimmed = system;
    let mut k: usize = start;
    assert(tail_v.take(0) =~= Seq::<JsonV>::empty());
    assert(views(trimmed@) =~= sys_v + tail_v.take(0));
    while k < non_system.len()
        invariant
            start <= k <= non_system.len(),
            start == if non_system.len() > budget { non_system.len() - budget } else { 0 },
            tail_v == last_n(views(non_system@), budget as nat),
            views(trimmed@) == sys_v + tail_v.take(k - start),
        decreases non_system.len() - k,
    {
        let m = non_system[k].copy();
        let ghost v = m@;
        let ghost before = views(trimmed@);
        trimmed.push(m);
        assert(tail_v[k - start] == v);
        assert(views(trimmed@) =~= before.push(v));
        assert(tail_v.take(k - start + 1) =~= tail_v.take(k - start).push(v));
        k = k + 1;
    }
    assert(tail_v.take(tail_v.len() as int) =~= tail_v);
    trimmed
}

/// How many messages (or input items) a request carries (`count_incoming_messages`).
pub fn count_incoming_messages(input: &Json) -> (r: usize)
    ensures
        r == incoming_count(input@),
{
    match input.get_array("messages") {
        Some(messages) => messages.len(),
        None => match input.get_array("input") {
            Some(items) => items.len(),
            None => 0,
        },
    }
}

fn raw_messages_of(input: &Json) -> (r: Option<Vec<Json>>)
    ensures
        match r {
            Some(v) => raw_messages(input@) == Some(views(v@)),
            None => raw_messages(input@) is None,
        },
{
    match input.get_array("messages") {
        Some(messages) => Some(crate::json::copy_all(messages)),
        None => match input.get_array("input") {
            Some(items) => match convert_input_to_messages(items) {
                Ok(converted) => Some(converted),
                Err(_) => None,
            },
            None => None,
        },
    }
}

/// Whether `parse_chat_request` can cap every kept message without
/// splitting a character.
pub fn chat_request_truncatable(input: &Json, max_raw_messages: usize) -> (r: bool)
    ensures
        r == chat_requirement(input@, max_raw_messages as nat),
{
    let raw = match raw_messages_of(input) {
        Some(raw) => raw,
        None => return true,
    };
    if raw.len() == 0 {
        return true;
    }
    let ghost rv = views(raw@);
    let raw = tail_raw_json_messages(raw, max_raw_messages);
    let ghost tv = views(raw@);
    assert(tv == tail_raw(rv, max_raw_messages as nat));
    let mut i: usize = 0;
    while i < raw.len()
        invariant
            i <= raw.len(),
            tv == views(raw@),
            tv == tail_raw(rv, max_raw_messages as nat),
            raw_messages(input@) == Some(rv),
            rv.len() > 0,
            forall|k: int| #![trigger tv[k]] 0 <= k < i ==> truncatable(message_text(k as nat, tv[k])),
        decreases raw.len() - i,
    {
        let t = message_text_of(i, &raw[i]);
        assert(tv[i as int] == raw@[i as int]@);
        if !crate::codex::content_truncatable(t.as_str()) {
            let ghost ii = i as int;
            assert(0 <= ii < tail_raw(rv, max_raw_messages as nat).len());
            assert(!truncatable(message_text(ii as nat, tail_raw(rv, max_raw_messages as nat)[ii])));
            return false;
        }
        i = i + 1;
    }
    true
}

/// Reads a chat request: the model (default `gpt2cursor-local`), whether to
/// stream, and the messages, from `messages` or a Responses-API `input` list,
/// cut to `max_raw_messages` and reduced to plain text. Fails when there are
/// no messages, or none with text.
pub fn parse_chat_request(input: &Json, max_raw_messages: usize) -> (r: Result<ChatRequest, String>)
    requires
        chat_requirement(input@, max_raw_messages as nat),
    ensures
        match r {
            Ok(chat) => chat_request(input@, max_raw_messages as nat) == Ok::<ChatRequestV, Seq<char>>(chat@),
            Err(e) => chat_request(input@, max_raw_messages as nat) == Err::<ChatRequestV, Seq<char>>(e@),
        },
{
    let model = str_or(input.get_str("model"), "gpt2cursor-local");
    let stream = match input.get_bool("stream") {
        Some(b) => b,
        None => false,
    };
    let raw = match raw_messages_of(input) {
        Some(raw) => raw,
        None => return Err(text::owned("messages must include at least one message")),
    };
    if raw.len() == 0 {
        return Err(text::owned("messages must include at least one message"));
    }
    let raw = tail_raw_json_messages(raw, max_raw_messages);
    let ghost tv = views(raw@);
    let mut parsed: Vec<ChatMessage> = Vec::new();
    let mut index: usize = 0;
    assert(messages_view(parsed@) =~= Seq::<ChatMessageV>::empty());
    while index < raw.len()
        invariant
            index <= raw.len(),
            tv == views(raw@),
            forall|k: int| #![trigger tv[k]] 0 <= k < tv.len() ==> truncatable(message_text(k as nat, tv[k])),
            messages_view(parsed@) == parsed_messages(tv, index as nat),
        decreases raw.len() - index,
    {
        assert(tv[index as int] == raw@[index as int]@);
        assert(truncatable(message_text(index as nat, tv[index as int])));
        let message = parse_message(index, &raw[index]);
        let ghost before = messages_view(parsed@);
        let ghost pv = message@;
        if !text::str_is_blank(message.content.as_str()) {
            parsed.push(message);
            assert(messages_view(parsed@) =~= before.push(pv));
        }
        index = index + 1;
    }
    if parsed.len() == 0 {
        return Err(text::owned("messages must include at least one message with text"));
    }
    proof {
        assert(messages_view(parsed@).len() == parsed@.len());
    }
    Ok(ChatRequest { model, messages: parsed, stream })
}

proof fn lemma_select_raw_concat(a: Seq<JsonV>, b: Seq<JsonV>, want_system: bool)
    ensures
        select_raw(a + b, want_system) == select_raw(a, want_system) + select_raw(b, want_system),
    decreases b.len(),
{
    if b.len() == 0 {
        assert(a + b =~= a);
        assert(select_raw(a, want_system) + select_raw(b, want_system) =~= select_raw(
            a,
            want_system,
        ));
    } else {
        lemma_select_raw_concat(a, b.drop_last(), want_system);
        assert((a + b).drop_last() =~= a + b.drop_last());
        assert((a + b).last() == b.last());
        if is_system_raw(b.last()) == want_system {
            assert(select_raw(a, want_system) + select_raw(b.drop_last(), want_system).push(
                b.last(),
            ) =~= (select_raw(a, want_system) + select_raw(b.drop_last(), want_system)).push(
                b.last(),
            ));
        }
    }
}

proof fn lemma_select_raw_len(ms: Seq<JsonV>)
    ensures
        select_raw(ms, true).len() + select_raw(ms, false).len() == ms.len(),
    decreases ms.len(),
{
    if ms.len() > 0 {
        lemma_select_raw_len(ms.drop_last());
    }
}

proof fn lemma_select_raw_members(ms: Seq<JsonV>, want_system: bool)
    ensures
        forall|i: int|
            0 <= i < select_raw(ms, want_system).len() ==> is_system_raw(
                #[trigger] select_raw(ms, want_system)[i],
            ) == want_system,
    decreases ms.len(),
{
    if ms.len() > 0 {
        lemma_select_raw_members(ms.drop_last(), want_system);
        let r = select_raw(ms.drop_last(), want_system);
        let s = select_raw(ms, want_system);
        assert forall|i: int| 0 <= i < s.len() implies is_system_raw(#[trigger] s[i])
            == want_system by {
            if i < r.len() {
                assert(s[i] == r[i]);
            }
        }
    }
}

proof fn lemma_select_raw_uniform(ms: Seq<JsonV>, want_system: bool)
    requires
        forall|i: int| 0 <= i < ms.len() ==> is_system_raw(#[trigger] ms[i]) == want_system,
    ensures
        select_raw(ms, want_system) == ms,
        select_raw(ms, !want_system).len() == 0,
    decreases ms.len(),
{
    if ms.len() > 0 {
        lemma_select_raw_uniform(ms.drop_last(), want_system);
        assert(is_system_raw(ms[ms.len() - 1]) == want_system);
        assert(ms.drop_last().push(ms.last()) =~= ms);
    }
}

/// Before parsing, a request keeps every system message, in order, and the
/// most recent other messages; when it carried more than `max` messages and
/// fewer than `max` of them are system messages, exactly `max` stay.
pub proof fn law_pre_trim(raw: Seq<JsonV>, max: nat)
    ensures
        tail_raw(raw, max).len() <= raw.len(),
        select_raw(tail_raw(raw, max), true) == select_raw(raw, true),
        crate::codex::suffix_of(select_raw(tail_raw(raw, max), false), select_raw(raw, false)),
        raw.len() > max && select_raw(raw, true).len() < max ==> tail_raw(raw, max).len() == max,
        raw.len() <= max ==> tail_raw(raw, max) == raw,
{
    let system = select_raw(raw, true);
    let rest = select_raw(raw, false);
    lemma_select_raw_len(raw);
    if raw.len() <= max {
        assert(rest.skip(0) =~= rest);
    } else {
        let budget = at_least_one(if max >= system.len() { (max - system.len()) as nat } else { 0 });
        let tail = last_n(rest, budget);
        lemma_select_raw_members(raw, true);
        lemma_select_raw_members(raw, false);
        lemma_select_raw_uniform(system, true);
        let k = if rest.len() <= budget { 0 } else { rest.len() - budget };
        assert(tail =~= rest.skip(k));
        assert forall|i: int| 0 <= i < tail.len() implies is_system_raw(#[trigger] tail[i])
            == false by {
            assert(tail[i] == rest[i + k]);
        }
        lemma_select_raw_uniform(tail, false);
        lemma_select_raw_concat(system, tail, true);
        lemma_select_raw_concat(system, tail, false);
        assert(select_raw(system + tail, true) =~= system);
        assert(select_raw(system + tail, false) =~= tail);
    }
}

/// Parsing never yields more messages than it is given: blank ones are dropped.
pub proof fn law_parsed_at_most_given(raw: Seq<JsonV>, n: nat)
    ensures
        parsed_messages(raw, n).len() <= n,
    decreases n,
{
    if n > 0 {
        law_parsed_at_most_given(raw, (n - 1) as nat);
    }
}

/// Every parsed message's content can be cut again.
pub proof fn lemma_parsed_truncatable(raw: Seq<JsonV>, n: nat)
    requires
        n <= raw.len(),
        forall|k: int| #![trigger raw[k]] 0 <= k < n ==> truncatable(message_text(k as nat, raw[k])),
    ensures
        forall|i: int|
            0 <= i < parsed_messages(raw, n).len() ==> truncatable(
                #[trigger] parsed_messages(raw, n)[i].content,
            ),
    decreases n,
{
    if n > 0 {
        lemma_parsed_truncatable(raw, (n - 1) as nat);
        let k = n - 1;
        assert(truncatable(message_text(k as nat, raw[k])));
        crate::codex::lemma_truncated_truncatable(message_text(k as nat, raw[k]));
        let r = parsed_messages(raw, (n - 1) as nat);
        let s = parsed_messages(raw, n);
        assert forall|i: int| 0 <= i < s.len() implies truncatable(#[trigger] s[i].content) by {
            if i < r.len() {
                assert(s[i] == r[i]);
            } else {
                assert(s[i] == parsed_message(k as nat, raw[k]));
            }
        }
    }
}

/// A successfully parsed request can always be trimmed for Codex.
pub proof fn lemma_chat_trimmable(input: JsonV, max_raw: nat, max_messages: nat)
    requires
        chat_requirement(input, max_raw),
        chat_request(input, max_raw) is Ok,
    ensures
        crate::codex::trim_requirement(chat_request(input, max_raw)->Ok_0.messages, max_messages),
{
    let raw = raw_messages(input)->0;
    let tailed = tail_raw(raw, max_raw);
    assert(forall|k: int| #![trigger tailed[k]] 0 <= k < tailed.len() ==> truncatable(
        message_text(k as nat, tailed[k]),
    ));
    lemma_parsed_truncatable(tailed, tailed.len());
    crate::codex::lemma_trimmable(parsed_messages(tailed, tailed.len()), max_messages);
}
} // verus!
