use gpt2cursor::bridge::{is_authorized, Headers};
use gpt2cursor::chat::parse_chat_request;
use gpt2cursor::json::Json;

fn s(t: &str) -> Json {
    Json::Str(t.to_string())
}

fn obj(fields: Vec<(&str, Json)>) -> Json {
    Json::Object(fields.into_iter().map(|(k, v)| (k.to_string(), v)).collect())
}

#[test]
fn rejects_invalid_bearer_token() {
    let mut headers = Headers::new();
    headers.insert("authorization".to_string(), "Bearer wrong".to_string());
    assert!(!is_authorized(&headers, "secret"));
}

#[test]
fn accepts_valid_bearer_token() {
    let mut headers = Headers::new();
    headers.insert("authorization".to_string(), "Bearer secret".to_string());
    assert!(is_authorized(&headers, "secret"));
}

#[test]
fn parses_chat_request_with_text_parts() {
    let input = obj(vec![
        ("model", s("gpt2cursor-local")),
        ("stream", Json::Bool(true)),
        (
            "messages",
            Json::Array(vec![obj(vec![
                ("role", s("user")),
                ("content", Json::Array(vec![obj(vec![("type", s("text")), ("text", s("hello"))])])),
            ])]),
        ),
    ]);
    let chat = parse_chat_request(&input, 64).unwrap();
    assert!(chat.stream);
    assert_eq!(chat.messages[0].content, "hello");
}

#[test]
fn parses_assistant_tool_calls_without_content() {
    let input = obj(vec![
        ("model", s("gpt2cursor-local")),
        (
            "messages",
            Json::Array(vec![
                obj(vec![("role", s("user")), ("content", s("read file"))]),
                obj(vec![
                    ("role", s("assistant")),
                    ("content", Json::Null),
                    (
                        "tool_calls",
                        Json::Array(vec![obj(vec![
                            ("id", s("call_1")),
                            ("type", s("function")),
                            (
                                "function",
                                obj(vec![
                                    ("name", s("Read")),
                                    ("arguments", s("{\"path\":\"main.rs\"}")),
                                ]),
                            ),
                        ])]),
                    ),
                ]),
            ]),
        ),
    ]);
    let chat = parse_chat_request(&input, 64).unwrap();
    assert_eq!(chat.messages.len(), 2);
    assert!(chat.messages[1].content.contains("[tool_call Read]"));
}

#[test]
fn parses_tool_role_messages() {
    let input = obj(vec![
        ("model", s("gpt2cursor-local")),
        (
            "messages",
            Json::Array(vec![
                obj(vec![("role", s("user")), ("content", s("run"))]),
                obj(vec![
                    ("role", s("tool")),
                    ("tool_call_id", s("call_1")),
                    ("name", s("Shell")),
                    ("content", s("done")),
                ]),
            ]),
        ),
    ]);
    let chat = parse_chat_request(&input, 64).unwrap();
    assert_eq!(chat.messages[1].content, "done");
}

#[test]
fn parses_input_text_content_parts() {
    let input = obj(vec![
        ("model", s("gpt2cursor-local")),
        (
            "messages",
            Json::Array(vec![obj(vec![
                ("role", s("user")),
                (
                    "content",
                    Json::Array(vec![obj(vec![
                        ("type", s("input_text")),
                        ("text", s("hello from cursor")),
                    ])]),
                ),
            ])]),
        ),
    ]);
    let chat = parse_chat_request(&input, 64).unwrap();
    assert_eq!(chat.messages[0].content, "hello from cursor");
}

#[test]
fn skips_empty_assistant_messages() {
    let input = obj(vec![
        ("model", s("gpt2cursor-local")),
        (
            "messages",
            Json::Array(vec![
                obj(vec![("role", s("user")), ("content", s("hello"))]),
                obj(vec![("role", s("assistant")), ("content", s(""))]),
            ]),
        ),
    ]);
    let chat = parse_chat_request(&input, 64).unwrap();
    assert_eq!(chat.messages.len(), 1);
}

#[test]
fn parses_responses_api_input_field() {
    let input = obj(vec![
        ("model", s("gpt2cursor-local")),
        (
            "input",
            Json::Array(vec![obj(vec![
                ("type", s("message")),
                ("role", s("user")),
                (
                    "content",
                    Json::Array(vec![obj(vec![("type", s("input_text")), ("text", s("hello"))])]),
                ),
            ])]),
        ),
    ]);
    let chat = parse_chat_request(&input, 64).unwrap();
    assert_eq!(chat.messages[0].content, "hello");
}

#[test]
fn pre_trims_large_incoming_messages_before_codex() {
    let messages: Vec<Json> = (0..100)
        .map(|index| obj(vec![("role", s("user")), ("content", Json::Str(format!("msg {index}")))]))
        .collect();
    let input = obj(vec![("model", s("gpt2cursor-local")), ("messages", Json::Array(messages))]);
    let chat = parse_chat_request(&input, 16).unwrap();
    assert_eq!(chat.messages.len(), 16);
}
