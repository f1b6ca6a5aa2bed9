pub mod agent;
pub mod config;
pub mod confirm;
pub mod context;
pub mod error;
pub mod json;
pub mod message;
pub mod pattern;
pub mod prompt;
pub mod provider;
pub mod render;
pub mod security;
pub mod session;
pub mod text;
pub mod tools;
pub mod tui;
pub mod ui;
