//! The virtual machine: its state and the execution of bytecode.

pub mod context;
pub mod semantics;
pub mod exec;
pub mod machine;
