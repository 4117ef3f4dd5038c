//! MiniKV: a small persistent key-value store.
//!
//! The library holds the store's logic: the command grammar, the in-memory
//! store, the text formats of its log and snapshot files, and the replay of
//! those files. Reading and writing the files is left to the caller.

pub mod errors;
pub mod text;
pub mod format;
pub mod model;
pub mod command_type;
pub mod item;
pub mod command;
pub mod protocol;
pub mod laws;
