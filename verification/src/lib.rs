//! Storage stack of a small operating-system kernel: a virtual filesystem
//! layer over heterogeneous backing stores, a read-only FAT12/16/32 driver,
//! an in-memory filesystem, a block-device abstraction, and a file-descriptor
//! table, together with the small kernel subsystems built on top of them
//! (configuration, logging, users, tasks).

pub mod block_device;
pub mod config;
pub mod errors;
pub mod fat;
pub mod fd;
pub mod logger;
pub mod mouse;
pub mod path;
pub mod ramdisk;
pub mod rtc;
pub mod simple_fs;
pub mod storage;
pub mod strutil;
pub mod task;
pub mod tempfs;
pub mod user;
pub mod vfs;
pub mod vga;
