//! Fault-tolerant microkernel core: SECDED memory, scrubbing, redundant
//! execution, a page-backed file system and the kernel's pure helpers.
pub mod ecc;
pub mod allocator;
pub mod scrubber;
pub mod text;
pub mod tmr;
pub mod dispatcher;
pub mod inode;
pub mod vfs;
pub mod paths;
pub mod vfs_edit;
pub mod vfs_laws;
pub mod kernel_core;
pub mod hal;
pub mod keyboard;
pub mod logger;
pub mod interrupts;
pub mod threads;
pub mod window;
pub mod framebuffer;
pub mod syscall;
pub mod console;
pub mod graphics;
pub mod shell;
pub mod dashboard;
pub mod user_memory;
pub mod kernel_shell;
pub mod dashboard_shell;
pub mod compositor;
pub mod wallpaper;
pub mod desktop;
pub mod mouse;
pub mod text_metrics;
