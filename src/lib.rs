//! Compiles a tree of markdown documents into an immutable cache of rendered
//! pages, with heading anchors, inline emoji assets and substring search.

pub mod emojis;
pub mod error;
pub mod events;
pub mod markdown;
pub mod search;
pub mod slug;
pub mod state;
pub mod template;
pub mod text;
pub mod walk;
