//! A verified to-do list: tasks with unique texts and monotonically assigned
//! ids, the operations over a collection of them (add, list, complete,
//! remove, clear, stats), a proved-round-tripping JSON persistence format,
//! and a command dispatcher. File reading and writing, the clock, and the
//! terminal are left to the embedding program.

pub mod codec;
pub mod collection;
pub mod command;
pub mod digits;
pub mod render;
pub mod storage;
pub mod strutil;
pub mod time;
pub mod todo;
