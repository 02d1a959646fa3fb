use gpt2cursor::ngrok::{
    is_ngrok_ready, parse_authtoken_from_config, parse_tunnel_for_port, to_openai_base_url,
};

#[test]
fn parses_top_level_authtoken() {
    let content = "version: \"3\"\nauthtoken: test_token_123\n";
    assert_eq!(parse_authtoken_from_config(content), Some("test_token_123".to_string()));
}

#[test]
fn parses_agent_authtoken() {
    let content = "version: \"3\"\nagent:\n  authtoken: nested_token\n";
    assert_eq!(parse_authtoken_from_config(content), Some("nested_token".to_string()));
}

#[test]
fn parses_https_tunnel_url_for_port() {
    let body = r#"{"tunnels":[{"public_url":"https://abc.ngrok-free.app","config":{"addr":"http://localhost:8787"}}]}"#;
    assert_eq!(
        parse_tunnel_for_port(body, 8787),
        Some("https://abc.ngrok-free.app/v1".to_string())
    );
}

#[test]
fn ignores_tunnel_for_other_port() {
    let body = r#"{"tunnels":[{"public_url":"https://abc.ngrok-free.app","config":{"addr":"http://localhost:8787"}}]}"#;
    assert_eq!(parse_tunnel_for_port(body, 3000), None);
}

#[test]
fn prefers_https_over_http_tunnel() {
    let body = r#"{"tunnels":[
        {"public_url":"http://abc.ngrok-free.app","config":{"addr":"http://localhost:8787"}},
        {"public_url":"https://xyz.ngrok-free.app","config":{"addr":"http://127.0.0.1:8787"}}
    ]}"#;
    assert_eq!(
        parse_tunnel_for_port(body, 8787),
        Some("https://xyz.ngrok-free.app/v1".to_string())
    );
}

#[test]
fn formats_openai_base_url() {
    assert_eq!(to_openai_base_url("https://abc.ngrok-free.app/"), "https://abc.ngrok-free.app/v1");
}

#[test]
fn ngrok_ready_with_inline_token() {
    assert!(is_ngrok_ready("token", false));
}

#[test]
fn parses_agent_authtoken_after_other_agent_keys() {
    let content = "version: \"3\"\nagent:\n  connect_timeout: 30s\n  authtoken: nested_token\n";
    assert_eq!(parse_authtoken_from_config(content), Some("nested_token".to_string()));
}

#[test]
fn tunnel_answers_that_are_not_json_give_nothing() {
    assert_eq!(parse_tunnel_for_port("not json", 8787), None);
}
