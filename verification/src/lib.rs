//! Clipboard history logic: entry previews, history ordering and pinning,
//! the in-memory database cache, clipboard event decisions and the
//! application's message handling.

mod sys;

pub mod app;
pub mod clipboard;
pub mod clipboard_watcher;
pub mod config;
pub mod db;
pub mod history;
pub mod text;
pub mod time;
