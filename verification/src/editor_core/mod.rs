pub mod commands;
pub mod events;
pub mod format_control;
pub mod history;
pub mod key_actions;
pub mod layout;
pub mod noun_suffixes;
pub mod suggestions;
pub mod word_boundary;
