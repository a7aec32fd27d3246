//! Verified core of the SnowFlake operating system: the logic of its kernel
//! and of its UEFI boot loader, separated from the hardware it drives.

mod keyboard_table;

pub mod apic;
pub mod boot;
pub mod bytes;
pub mod conf;
pub mod display;
pub mod display_laws;
pub mod elf;
pub mod files;
pub mod keyboard;
pub mod loader;
pub mod memory;
pub mod modes;
pub mod paging;
pub mod pic;
pub mod shell;
pub mod string;
pub mod vbe;
