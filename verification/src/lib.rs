//! Verified core of a terminal browser for Swamp model repositories.
pub mod text;
pub mod error;
pub mod config;
pub mod json;
pub mod json_text;
pub mod diff;
pub mod diff_entries;
pub mod schema;
pub mod redaction;
pub mod numbers;
pub mod pattern;
pub mod swamp;
pub mod cache;
pub mod app;
pub mod state;
pub mod startup;
pub mod keys;
pub mod grid;
pub mod dag;
pub mod ui;
pub mod panels;
pub mod content;
pub mod guard;
pub mod laws;
