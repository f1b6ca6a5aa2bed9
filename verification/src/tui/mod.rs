//! The full-screen interface.
pub mod diff;
pub mod draw;
pub mod event;
pub mod line;
pub mod markdown;
pub mod run;
pub mod state;
