//! Reorderings of instruction sequences.
pub mod perms;
