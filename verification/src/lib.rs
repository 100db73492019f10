//! Stack unwinding for ARM64 crash snapshots.
//!
//! The crate reconstructs the chain of call frames that was active when a
//! snapshot of a process was taken. Each caller frame is recovered from its
//! callee by the first strategy that succeeds: call frame information,
//! the frame-pointer chain, or a scan of stack memory.

pub mod cfi;
pub mod fixture;
pub mod lexer;
pub mod memory;
pub mod modules;
pub mod registers;
pub mod stackwalker;
pub mod symbols;
