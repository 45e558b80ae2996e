//! Kernel logic for a small RISC-V supervisor: thread scheduling, system
//! call decoding, the console line editor, shell command interpretation and
//! block-device arithmetic, each with its contract.

pub mod context;
pub mod thread_table;
pub mod hart;
pub mod thread;
pub mod thread_laws;
pub mod ecall;
pub mod trap_handler;
pub mod libraries;
pub mod text;
pub mod programs;
pub mod virtio_fatfs;
pub mod transfer_laws;
pub mod ext4_block_device;
pub mod print;
pub mod system_utils;
pub mod boot;
pub mod virtio_hal;
pub mod devices;
pub mod device_tree_format;
pub mod device_tree;
