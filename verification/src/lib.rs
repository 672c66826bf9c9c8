//! The verified core of clipwin, a clipboard manager.

pub mod cf_html;
pub mod clock;
pub mod commands;
pub mod content;
pub mod decimal;
pub mod dib;
pub mod digest;
pub mod json;
pub mod laws;
pub mod like;
pub mod order;
pub mod paste;
pub mod rows;
pub mod seqs;
pub mod store;
pub mod tags;
pub mod text;
pub mod tray;
pub mod unicode;
pub mod watcher;
pub mod wide;
pub mod window;
