//! Decoder for Mode-S Beast surveillance frames.
//!
//! The crate walks a fixed wire header, validates the downlink-format
//! selector, extracts the 24-bit aircraft address, dispatches on the
//! embedded type code, and decodes the bit-packed payload fields into a
//! structured frame. A small aggregation table keeps the last-known
//! identity and altitude per aircraft and renders an ordered report.

pub mod adsb;
pub mod bits;
pub mod table;
pub mod text;
