//! Access layer for the EFI variables of the systemd-boot loader interface.
//!
//! The crate converts between native text and the UTF-16LE payloads stored in
//! firmware variables, reads variables of unknown size through a geometrically
//! growing buffer, plans the temporary clearing of the filesystem immutable
//! bit around writes, and composes these pieces into a manager over a generic
//! variable store.

pub mod attributes;
pub mod cli;
pub mod codec;
pub mod error;
pub mod interactive;
pub mod manager;
pub mod memstore;
pub mod read;
pub mod store;
pub mod units;
pub mod write;

pub use units::U16ArrayExt;
