//! Taking over settings and state that earlier releases left behind.
pub mod chats;
pub mod config;
pub mod progress;
pub mod records;
pub mod settings;
