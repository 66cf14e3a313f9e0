//! A self-hosted scraping service: what it decides and computes.
//!
//! The modules hold the configuration, the queries, the crawl, the extraction
//! by a language model, the HTTP interface and the background workers as plain
//! functions and state machines. What reads and sends is left to the program
//! around them.

pub mod api;
pub mod config;
pub mod crawl;
pub mod database;
pub mod extracting;
pub mod html;
pub mod ident;
pub mod json;
pub mod llm;
pub mod models;
pub mod robots;
pub mod scraper;
pub mod search;
pub mod sitemaps;
pub mod text;
pub mod weburl;
pub mod worker;
