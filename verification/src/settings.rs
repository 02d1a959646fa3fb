//! The bridge's user settings and the rules that make them valid.

use vstd::prelude::*;

use crate::text;

verus! {

/// The port the bridge listens on unless told otherwise.
pub const DEFAULT_PORT: u16 = 8787;

/// The history length handed to Codex when settings do not say otherwise.
pub const DEFAULT_CODEX_MAX_MESSAGES: usize = 12;

/// Everything the user can configure.
#[derive(Clone, Debug, PartialEq, Eq)]
pub struct AppSettings {
    pub port: u16,
    pub api_key: String,
    pub model: String,
    pub codex_command: String,
    pub codex_workdir: String,
    pub codex_model: String,
    pub codex_profile: String,
    pub codex_sandbox: String,
    pub codex_approval: String,
    pub codex_timeout_ms: u64,
    pub codex_max_messages: usize,
    pub launch_at_login: bool,
    pub ngrok_enabled: bool,
    pub ngrok_authtoken: String,
    /// Dev mode keeps a longer activity log with raw requests, prompts and results.
    pub dev_mode: bool,
}

/// The settings a fresh installation starts from.
pub open spec fn is_default_settings(s: AppSettings) -> bool {
    &&& s.port == DEFAULT_PORT
    &&& s.api_key@ == Seq::<char>::empty()
    &&& s.model@ == "gpt2cursor-local"@
    &&& s.codex_command@ == "codex"@
    &&& s.codex_workdir@ == Seq::<char>::empty()
    &&& s.codex_model@ == "gpt-5.5"@
    &&& s.codex_profile@ == Seq::<char>::empty()
    &&& s.codex_sandbox@ == "read-only"@
    &&& s.codex_approval@ == "never"@
    &&& s.codex_timeout_ms == 300_000
    &&& s.codex_max_messages == 12
    &&& !s.launch_at_login
    &&& !s.ngrok_enabled
    &&& s.ngrok_authtoken@ == Seq::<char>::empty()
    &&& !s.dev_mode
}

impl Default for AppSettings {
    fn default() -> (s: Self)
        ensures
            is_default_settings(s),
    {
        AppSettings {
            port: DEFAULT_PORT,
            api_key: String::new(),
            model: text::owned("gpt2cursor-local"),
            codex_command: text::owned("codex"),
            codex_workdir: String::new(),
            codex_model: text::owned("gpt-5.5"),
            codex_profile: String::new(),
            codex_sandbox: text::owned("read-only"),
            codex_approval: text::owned("never"),
            codex_timeout_ms: 300_000,
            codex_max_messages: 12,
            launch_at_login: false,
            ngrok_enabled: false,
            ngrok_authtoken: String::new(),
            dev_mode: false,
        }
    }
}

/// `serde`'s fallback for a missing `codex_max_messages`.
pub fn default_codex_max_messages() -> (n: usize)
    ensures
        n == DEFAULT_CODEX_MAX_MESSAGES,
{
    DEFAULT_CODEX_MAX_MESSAGES
}

/// The sandbox modes Codex accepts.
pub open spec fn sandbox_options() -> Seq<Seq<char>> {
    seq!["read-only"@, "workspace-write"@, "danger-full-access"@]
}

/// The approval policies Codex accepts.
pub open spec fn approval_options() -> Seq<Seq<char>> {
    seq!["untrusted"@, "on-request"@, "never"@]
}

/// The message for a value outside `allowed`.
pub open spec fn option_error(allowed: Seq<Seq<char>>, label: Seq<char>) -> Seq<char> {
    label + " must be one of: "@ + text::join(allowed, ", "@)
}

/// The first rule that `s` breaks, as the message `validate` returns.
pub open spec fn validation_error(s: AppSettings) -> Option<Seq<char>> {
    if text::is_blank(s.api_key@) {
        Some("API key is required"@)
    } else if s.port == 0 {
        Some("Port must be between 1 and 65535"@)
    } else if !sandbox_options().contains(s.codex_sandbox@) {
        Some(option_error(sandbox_options(), "Codex sandbox"@))
    } else if !approval_options().contains(s.codex_approval@) {
        Some(option_error(approval_options(), "Codex approval"@))
    } else if s.codex_timeout_ms < 1_000 {
        Some("Codex timeout must be at least 1000 ms"@)
    } else if s.codex_max_messages == 0 {
        Some("Codex context must include at least 1 message"@)
    } else {
        None
    }
}

impl AppSettings {
    /// Checks the settings; the error names the first rule they break.
    pub fn validate(&self) -> (r: Result<(), String>)
        ensures
            match r {
                Ok(()) => validation_error(*self) is None,
                Err(e) => validation_error(*self) == Some(e@),
            },
    {
        if text::str_is_blank(self.api_key.as_str()) {
            return Err(text::owned("API key is required"));
        }
        validate_port(self.port)?;
        let sandboxes: [&str; 3] = ["read-only", "workspace-write", "danger-full-access"];
        assert(text::views_of_strs(sandboxes@) =~= sandbox_options());
        validate_option(self.codex_sandbox.as_str(), &sandboxes, "Codex sandbox")?;
        let approvals: [&str; 3] = ["untrusted", "on-request", "never"];
        assert(text::views_of_strs(approvals@) =~= approval_options());
        validate_option(self.codex_approval.as_str(), &approvals, "Codex approval")?;
        if self.codex_timeout_ms < 1_000 {
            return Err(text::owned("Codex timeout must be at least 1000 ms"));
        }
        if self.codex_max_messages == 0 {
            return Err(text::owned("Codex context must include at least 1 message"));
        }
        Ok(())
    }
}

/// A port is usable when it is not zero.
pub fn validate_port(port: u16) -> (r: Result<(), String>)
    ensures
        match r {
            Ok(()) => port != 0,
            Err(e) => port == 0 && e@ == "Port must be between 1 and 65535"@,
        },
{
    if port == 0 {
        return Err(text::owned("Port must be between 1 and 65535"));
    }
    Ok(())
}

/// Accepts `value` when it is one of `allowed`.
pub fn validate_option(value: &str, allowed: &[&str], label: &str) -> (r: Result<(), String>)
    ensures
        match r {
            Ok(()) => text::views_of_strs(allowed@).contains(value@),
            Err(e) => !text::views_of_strs(allowed@).contains(value@) && e@ == option_error(
                text::views_of_strs(allowed@),
                label@,
            ),
        },
{
    if text::strs_contain(allowed, value) {
        Ok(())
    } else {
        let mut e = text::owned(label);
        text::push_str(&mut e, " must be one of: ");
        let joined = text::join_strs(allowed, ", ");
        text::push_str(&mut e, joined.as_str());
        Err(e)
    }
}

/// `r` is `s` repaired as `normalize_loaded_settings` repairs it.
pub open spec fn normalized_from(s: AppSettings, r: AppSettings) -> bool {
    &&& r.model@ == "gpt2cursor-local"@
    &&& r.codex_timeout_ms == if s.codex_timeout_ms <= 120_000 {
        300_000
    } else {
        s.codex_timeout_ms
    }
    &&& r.codex_max_messages == if s.codex_max_messages == 0 {
        DEFAULT_CODEX_MAX_MESSAGES
    } else {
        s.codex_max_messages
    }
    &&& r == (AppSettings {
        model: r.model,
        codex_timeout_ms: r.codex_timeout_ms,
        codex_max_messages: r.codex_max_messages,
        ..s
    })
}

/// Repairing settings twice changes nothing the first repair did not, and
/// repaired settings always meet the timeout and history-length rules.
pub proof fn law_normalize_idempotent(s: AppSettings, t: AppSettings, u: AppSettings)
    requires
        normalized_from(s, t),
        normalized_from(t, u),
    ensures
        u.model@ == t.model@,
        u == (AppSettings { model: u.model, ..t }),
        t.codex_timeout_ms >= 1_000,
        t.codex_max_messages >= 1,
{
}

/// Fresh settings are refused only for want of an API key: with any
/// non-blank key they pass every rule.
pub proof fn law_defaults_need_only_a_key(s: AppSettings, key: String)
    requires
        is_default_settings(s),
    ensures
        validation_error(s) == Some("API key is required"@),
        !text::is_blank(key@) ==> validation_error((AppSettings { api_key: key, ..s })) is None,
{
    assert(text::is_blank(s.api_key@)) by {
        assert(text::trim(s.api_key@).len() == 0) by {
            assert(s.api_key@.len() == 0);
            reveal_with_fuel(text::trim_start, 1);
            reveal_with_fuel(text::trim_end, 1);
        }
    }
    assert(sandbox_options()[0] == "read-only"@);
    assert(approval_options()[2] == "never"@);
}

/// Repairs settings read back from disk: the advertised model is always the
/// bridge's own, timeouts of two minutes or less become five minutes, and a
/// zero history length falls back to the default.
pub fn normalize_loaded_settings(settings: AppSettings) -> (r: AppSettings)
    ensures
        normalized_from(settings, r),
{
    let mut settings = settings;
    if !text::str_eq(settings.model.as_str(), "gpt2cursor-local") {
        settings.model = text::owned("gpt2cursor-local");
    }
    if settings.codex_timeout_ms <= 120_000 {
        settings.codex_timeout_ms = 300_000;
    }
    if settings.codex_max_messages == 0 {
        settings.codex_max_messages = default_codex_max_messages();
    }
    settings
}

} // verus!
