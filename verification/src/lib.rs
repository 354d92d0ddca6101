//! Task control and stride scheduling for a single-core teaching kernel.
//!
//! The crate holds the state a kernel keeps for each user task (saved
//! registers, private stack, system-call counters), the protocol that turns
//! one trapped system call into a scheduling directive, and a process table
//! with a ready queue ordered by stride. Every function carries a contract
//! over a mathematical view of the state it touches.

pub mod context;
pub mod ids;
pub mod manager;
pub mod process;
pub mod queue;
pub mod ready;
pub mod syscall;
pub mod task;
