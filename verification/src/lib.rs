//! Verified core of a Traditional Mongolian text editor: text-editing
//! decisions, word and suffix suggestions, find/replace bookkeeping,
//! undo history, and configuration data.

pub mod editor_core;
pub mod text;
pub mod config;
pub mod dictionary;
pub mod plugins;
