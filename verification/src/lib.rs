//! Verified core of a desktop widget that shows how much is left of the usage
//! limits of AI coding tools: Anthropic's coding agent, Codex, Gemini CLI,
//! Qwen, opencode, Copilot and Cursor.

pub mod timestamp;
pub mod base64url;
pub mod json;
pub mod usage;
pub mod settings;
pub mod poll;
pub mod text;
pub mod net;
pub mod auth;
pub mod backdrop;
