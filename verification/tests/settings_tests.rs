use gpt2cursor::settings::AppSettings;

#[test]
fn default_port_is_8787() {
    assert_eq!(AppSettings::default().port, 8787);
}

#[test]
fn rejects_empty_api_key() {
    let settings = AppSettings::default();
    assert!(settings.validate().unwrap_err().contains("API key"));
}

#[test]
fn rejects_unsupported_sandbox() {
    let settings = AppSettings {
        api_key: "local".to_string(),
        codex_sandbox: "full".to_string(),
        ..AppSettings::default()
    };
    assert!(settings.validate().unwrap_err().contains("sandbox"));
}
