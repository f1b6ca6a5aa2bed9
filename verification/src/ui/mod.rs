//! The interface of the line mode.
pub mod banner;
pub mod events;
pub mod inline;
pub mod input;
pub mod key;
pub mod markdown;
pub mod settings;
pub mod settings_file;
pub mod theme;
pub mod width;
