//! A model kernel library: physical frame allocation, four-level page-table
//! mapping, a first-fit heap allocator, and the interrupt/fault layer that
//! guards them, together with the subsystems the kernel hosts on top
//! (network stack, REST/WebSocket API, AI bookkeeping).
//!
//! Addresses, page tables and device state are carried as plain values, so
//! every allocation and mapping decision is stated and proved here; the thin
//! hardware glue (port I/O, raw table memory, the VGA text buffer) lives
//! outside the library and only feeds it values.

pub mod ai;
pub mod api;
pub mod gdt;
pub mod interrupts;
pub mod memory;
pub mod network;
pub mod qemu;
pub mod vga;
