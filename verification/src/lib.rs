//! Address-space management for a small cooperative kernel.
//!
//! The crate tracks which virtual pages a task may access and with what
//! permissions, backs mapped pages with physical frames, translates
//! user-space addresses into physical locations the kernel may touch, and
//! exposes the syscall-level entry points built on those pieces.

pub mod addr;
pub mod codec;
pub mod frame;
pub mod laws;
pub mod memory_set;
pub mod page_table;
pub mod perm;
pub mod syscall;
pub mod task;
pub mod translate;
