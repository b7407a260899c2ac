//! What will consume the syntax tree. So far, the object memory only.

pub mod memory;
