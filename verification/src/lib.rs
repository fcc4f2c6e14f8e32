//! Decides what a Codex notifier sends to Telegram.

pub mod answer;
pub mod cli;
pub mod codex_hook;
pub mod config;
pub mod daemon;
pub mod error;
pub mod hook;
pub mod json;
pub mod lines;
pub mod message;
pub mod number;
pub mod order;
pub mod review_watcher;
pub mod setup;
pub mod telegram;
pub mod text;
pub mod toml_value;
