//! Reading the site: access, listings and streams.
pub mod browser;
pub mod cf;
pub mod http;
pub mod scraper;
pub mod stream;
