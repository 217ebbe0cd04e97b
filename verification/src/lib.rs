//! Conversation turn engine for a branching-chat assistant.
//!
//! The crate models a chat timeline (chats, branches, messages), composes
//! deterministic prompt contexts, decodes a provider's line-delimited event
//! stream into text deltas, and commits completed turns back into the
//! timeline. Network transport and durable storage live outside the crate;
//! callers hand in plain values and drive the streaming exchange.

pub mod card;
pub mod composer;
pub mod decoder;
pub mod models;
pub mod policy;
pub mod store;
pub mod text;
pub mod turn;
