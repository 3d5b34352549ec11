//! Appends a payload file to the tail of a carrier file behind a
//! self-describing trailer, and finds that trailer again.
//!
//! Layout of a combined file, head to tail:
//! `[carrier][payload][end marker][descriptor][start marker]`.

pub mod codec;
pub mod locator;
pub mod transfer;
pub mod container;
pub mod describe;
