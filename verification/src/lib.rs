//! Parser and checksum engine for a flat firmware container format: a run of
//! zero bytes followed by self-describing chunks, each a fixed-layout header
//! plus a payload, located by a resynchronizing linear scan.

pub mod crc;
pub mod img;
pub mod img_header;
pub mod input;
pub mod local_error;
pub mod tabled_types;
pub mod utils;
