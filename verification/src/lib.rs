//! Sitemap resolution and HTML text extraction.
//!
//! The library discovers the content URLs a site publishes through
//! `robots.txt` and XML sitemaps, and turns raw HTML pages into clean
//! readable text.  Network fetches are performed by the caller: the
//! resolution pipeline is a verified state machine that says which URL
//! to fetch next and folds each fetched body into its result.

pub mod bridge;
pub mod chars;
pub mod download;
pub mod entity;
pub mod html;
pub mod resolve;
pub mod robots;
pub mod xml;
