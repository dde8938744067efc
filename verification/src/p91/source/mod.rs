//! Reading the site: access, listings and video pages.
pub mod http;
pub mod mp4;
pub mod resolver;
pub mod scraper;
