//! RockOS: the decisions and data structures of a small x86-64 kernel.
//!
//! Everything here is pure state and computation. The machine-facing half (port I/O, page-table
//! memory, control registers, the `syscall` entry path) calls in with plain values and performs
//! the actions that come back.

pub mod boot;
pub mod bytes;
pub mod elf;
pub mod elf_image;
pub mod errno;
pub mod exec;
pub mod exec_stack;
pub mod fork;
pub mod fs;
pub mod heap;
pub mod interrupts;
pub mod keyboard;
pub mod memory;
pub mod paging;
pub mod pit;
pub mod port;
pub mod process;
pub mod scheduler;
pub mod serial;
pub mod syscall;
pub mod task;
pub mod tty;
pub mod user;
pub mod vga;
pub mod vm;
