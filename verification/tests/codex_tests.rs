use gpt2cursor::codex::{
    format_prompt, is_explicit_command_path, parse_codex_jsonl, parse_codex_models,
    trim_messages_for_codex, ChatMessage,
};

fn msg(role: &str, content: &str) -> ChatMessage {
    ChatMessage { role: role.to_string(), content: content.to_string() }
}

#[test]
fn parses_codex_model_catalog() {
    let json = r#"{"models":[{"slug":"gpt-5.5","display_name":"GPT-5.5"},{"id":"gpt-5.4","display_name":"GPT-5.4"}]}"#;
    let models = parse_codex_models(json).unwrap();
    assert_eq!(models.len(), 2);
    assert_eq!(models[0].id, "gpt-5.5");
    assert_eq!(models[1].label, "GPT-5.4");
}

#[test]
fn trims_long_chat_history_for_codex() {
    let messages = (0..120)
        .map(|index| ChatMessage {
            role: if index % 2 == 0 { "user" } else { "assistant" }.to_string(),
            content: format!("message {index}"),
        })
        .collect::<Vec<_>>();
    let (trimmed, original) = trim_messages_for_codex(&messages, 32);
    assert_eq!(original, 120);
    assert_eq!(trimmed.len(), 32);
    assert_eq!(trimmed.first().unwrap().content, "message 88");
    assert_eq!(trimmed.last().unwrap().content, "message 119");
}

#[test]
fn preserves_system_messages_when_trimming() {
    let messages = vec![
        msg("system", "Be concise."),
        msg("user", "first"),
        msg("assistant", "second"),
        msg("user", "latest"),
    ];
    let (trimmed, original) = trim_messages_for_codex(&messages, 2);
    assert_eq!(original, 4);
    assert_eq!(trimmed.len(), 2);
    assert_eq!(trimmed[0].role, "system");
    assert_eq!(trimmed[1].content, "latest");
}

#[test]
fn formats_prompt_from_chat_messages() {
    let prompt = format_prompt(&[msg("system", "Be concise."), msg("user", "Hello")]);
    assert!(prompt.contains("System notes:\nBe concise."));
    assert!(prompt.contains("Latest user message:\nHello"));
}

#[test]
fn parses_current_codex_item_text_and_usage() {
    let jsonl = r#"{"type":"item.completed","item":{"type":"agent_message","text":"OK"}}"#.to_string()
        + "\n"
        + r#"{"type":"turn.completed","usage":{"input_tokens":10,"cached_input_tokens":2,"output_tokens":3,"reasoning_output_tokens":1}}"#;
    let (text, usage) = parse_codex_jsonl(&jsonl);
    assert_eq!(text, "OK");
    assert_eq!(usage.input_tokens, 10);
    assert_eq!(usage.output_tokens, 3);
}

#[test]
fn preserves_explicit_codex_path() {
    assert!(is_explicit_command_path("/tmp/codex"));
}
