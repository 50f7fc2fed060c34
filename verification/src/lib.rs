//! News Lab: the logic of a technology news, radar and release digest.
pub mod analysis;
pub mod cache;
pub mod config;
pub mod digest;
pub mod fetcher;
pub mod json;
pub mod knowledge;
pub mod lists;
pub mod llm;
pub mod menu;
pub mod number;
pub mod order;
pub mod pattern;
pub mod percent;
pub mod prompts;
pub mod radar;
pub mod report;
pub mod text;
pub mod time;
pub mod ui;
pub mod unicode;
pub mod xml;
