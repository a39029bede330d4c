pub mod color_serde;
pub mod keybindings;
pub mod settings;
pub mod themes;
