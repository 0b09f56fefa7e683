//! Conversion between the Codex conversation model and the Anthropic Messages API,
//! and the state machine that turns Anthropic stream events into response events.

pub mod error;
pub mod json;
pub mod messages;
pub mod request;
pub mod text;
pub mod tools;
pub mod sanitize;
pub mod stream;
pub mod string_map;
