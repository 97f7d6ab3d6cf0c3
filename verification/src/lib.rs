//! Decoder for a compact, versioned, tag-length-value binary encoding of
//! dynamically typed values, together with a lossy-but-defined projection of
//! the decoded tree into a generic JSON representation, and the small pure
//! decision rules of the surrounding logging pipeline.

pub mod cmd_check;
pub mod decode;
pub mod errors;
pub mod header;
pub mod json;
pub mod log_filter;
pub mod roundtrip;
pub mod tags;
pub mod trusted;
pub mod value;
pub mod wire;
