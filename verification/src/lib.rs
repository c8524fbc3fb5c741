//! Core of a realtime chat-session service: a session registry that fans
//! messages out to bounded per-connection mailboxes, the per-connection
//! dispatcher's decision logic, wire-format codecs for the chat and event
//! envelopes, and bearer-token verification.
pub mod auth;
pub mod chat_message;
pub mod events;
pub mod ids;
pub mod json;
pub mod session_manager;
pub mod ws_handler;
