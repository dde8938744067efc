//! Download engines for video sites and chat channels: the rules that decide
//! what is fetched, where it goes and when a transfer is finished.
pub mod configuration;
pub mod jav;
pub mod logging;
pub mod migration;
pub mod outside;
pub mod p91;
pub mod paths;
pub mod rewrite;
pub mod storage;
pub mod table;
pub mod telegram;
pub mod text;
pub mod video_resolution;
