//! Normalisation of loosely structured records into canonical datapoints.
//!
//! Records come from CSV tables, JSON arrays and line-delimited JSON. Each is
//! brought into one shape: an identifier, the owning dataset, a payload, an
//! optional target and a metadata mapping. A datapoint can then be projected
//! into the record that a text index takes.

pub mod bindings;
pub mod datapoint;
pub mod decode;
pub mod error;
pub mod format;
pub mod identifier;
pub mod index;
pub mod json;
pub mod text;
