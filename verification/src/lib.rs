//! A zero-copy, pull-based decoder for the Ion 1.1 raw binary format.
//!
//! The decoder slices an in-memory byte region into a lazy tree of typed
//! values without copying or eagerly materializing nested content. Symbol
//! resolution, text parsing and document building are left to callers; this
//! crate is only concerned with turning bytes into opcodes, headers and
//! lazily readable values.

pub mod cursor;
pub mod errors;
pub mod opcode;
pub mod reader;
pub mod stream;
pub mod value;
pub mod varwidth;
