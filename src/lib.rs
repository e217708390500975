//! Early-boot serial console of a bare-metal kernel: a polling UART driver
//! with a bounded wait, a console that shuts itself off after the first
//! failed write, and leveled log lines on top of it.

pub mod config;
pub mod console;
pub mod memory;
pub mod port;
pub mod registers;
pub mod state;
