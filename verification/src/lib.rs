//! Decoder for MRT routing-table dumps: record headers and payloads, the BGP
//! path attributes they carry, and the origin AS of each announced prefix.
//!
//! Every decoder is a function from bytes to a value, and states in its
//! contract which value that is.

pub mod address;
pub mod bgp;
pub mod header;
pub mod parser;
pub mod processor;
pub mod records;
pub mod wire;

pub use address::{IpAddress, IpPrefix};
pub use parser::Parser;
pub use header::{MrtHeader, MrtType, TableDump, TableDumpV2};
pub use records::{Afi, Message, PeerEntry, PeerIndexTable, RibEntry, RibSubEntry};
pub use wire::ParseError;
