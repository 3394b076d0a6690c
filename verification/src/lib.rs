//! Core logic of a chat-to-agent bridge: directive parsing, reply delivery,
//! session bookkeeping, message batching, hooks, reminders and media handling.

pub mod acp;
pub mod adapter;
pub mod config;
pub mod dispatch;
pub mod hooks;
pub mod json;
pub mod media;
pub mod paths;
pub mod reactions;
pub mod remind;
pub mod scaling;
pub mod table;
pub mod text;
pub mod thread_binding;
