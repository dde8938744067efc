//! The engine that downloads the media of chats.
pub mod auth;
pub mod flood;
pub mod login;
pub mod scan;
pub mod setup;
pub mod worker;
