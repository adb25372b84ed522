//! A small stack based virtual machine: runtime values with shared mutable
//! references, iterators, bytecode execution and module handling.

pub mod args;
pub mod code;
pub mod error;
pub mod laws;
pub mod lir;
pub mod module;
pub mod opt;
pub mod stdlib;
pub mod text;
pub mod util;
pub mod value;
pub mod var;
pub mod vm;
