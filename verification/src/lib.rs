//! Photon Protocol 18 decoding and Albion Online packet handling.

pub mod wire;
pub mod cursor;
pub mod deserializer;
pub mod parser;
pub mod capture;
pub mod utils;
pub mod convert;
pub mod structs;
pub mod decoder;
pub mod ops;
pub mod achievements;
pub mod inspector;
pub mod devices;
pub mod field_indices;
pub mod framing;
