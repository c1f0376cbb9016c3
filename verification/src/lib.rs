//! The logic of a small x86_64 microkernel: physical memory and page tables,
//! threads, message passing, a RAM file system, the driver model, the PE
//! loader and the first layer of the NT interface.

pub mod boot;
pub mod clock;
pub mod demo;
pub mod drivers;
pub mod framebuffer;
pub mod gdt;
pub mod idt;
pub mod ipc;
pub mod kernel;
pub mod keyboard;
pub mod ktest;
pub mod kthread;
pub mod laws;
pub mod loader;
pub mod lock;
pub mod memory;
pub mod multiboot2;
pub mod pic;
pub mod scheduler;
pub mod search;
pub mod shared;
pub mod syscall;
pub mod task;
pub mod text;
pub mod userspace;
pub mod vfs;
pub mod vga;
pub mod win32;
