//! What goes into a request besides the conversation, and how the conversation is kept short.
pub mod agents_md;
pub mod compress;
