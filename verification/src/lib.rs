//! Verified core of a server activity logger and battery UPS monitor.

pub mod base64;
pub mod containers;
pub mod downloads;
pub mod events;
pub mod navigation;
pub mod power;
pub mod process;
pub mod ssh;
pub mod sysinfo;
pub mod table;
pub mod text;
pub mod thermal;
