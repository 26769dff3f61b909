//! Kernel placement and physical-memory bookkeeping for a Multiboot loader
//! running on UEFI firmware.

pub mod mem;
pub mod memory_map;
pub mod boot;
pub mod menu;
