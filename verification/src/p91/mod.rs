//! The engine for a site that publishes videos as progressive MP4 files.
pub mod api;
pub mod app;
pub mod downloader;
pub mod source;
pub mod transfer;
