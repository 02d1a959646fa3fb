//! Verified core of the gpt2cursor bridge: request parsing, prompt building,
//! history trimming, usage accounting and the small text formats the bridge speaks.

pub mod bridge;
pub mod chat;
pub mod codex;
pub mod handler;
pub mod json;
pub mod launch;
pub mod ngrok;
pub mod panel;
pub mod payloads;
pub mod settings;
pub mod text;
