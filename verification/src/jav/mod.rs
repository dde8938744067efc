//! The engine for sites that publish videos as HLS streams.
pub mod api;
pub mod app;
pub mod downloader;
pub mod scheduler;
pub mod source;
pub mod util;
