//! The fixed 8-byte preamble: magic, version, top-level type tag and declared
//! content size, each validated before any content is decoded.

use vstd::prelude::*;
use crate::errors::{DecodeError, FieldContext};
use crate::tags::{BufferType, spec_tag_from_byte};
use crate::wire::{spec_le16_at, spec_le32_at, read_u16_le, read_u32_le};

verus! {

/// The magic bytes every buffer must open with.
pub const VALUE_BUFFER_MAGIC: u16 = 0x010E;

/// The one protocol version this decoder speaks.
pub const VALUE_BUFFER_VERSION: u8 = 1;

/// The byte length of the preamble.
pub const VALUE_BUFFER_HEADER_SIZE: usize = 8;

/// The four validated fields of a buffer's preamble.
#[derive(Debug, Clone, Copy, PartialEq, Eq, Structural)]
pub struct BufferHeader {
    pub magic: u16,
    pub version: u8,
    pub type_id: BufferType,
    pub size: u32,
}

/// What parsing the preamble of a byte sequence gives: the four fields on
/// success, and otherwise the first failure in the order the checks run
/// (length, tag byte, magic, version, declared size).
pub open spec fn spec_parse_header(b: Seq<u8>) -> Result<BufferHeader, DecodeError> {
    if b.len() < 8 {
        Err(DecodeError::BufferTooSmall { context: FieldContext::Header })
    } else {
        let magic = spec_le16_at(b, 0);
        let version = b[2];
        let size = spec_le32_at(b, 4);
        match spec_tag_from_byte(b[3]) {
            Err(e) => Err(e),
            Ok(type_id) => if magic != VALUE_BUFFER_MAGIC {
                Err(DecodeError::InvalidMagic { expected: VALUE_BUFFER_MAGIC, actual: magic })
            } else if version != VALUE_BUFFER_VERSION {
                Err(DecodeError::UnsupportedVersion {
                    expected: VALUE_BUFFER_VERSION,
                    actual: version,
                })
            } else if b.len() < 8 + size {
                Err(DecodeError::SizeMismatch {
                    expected: (8 + size) as u64,
                    actual: b.len() as u64,
                })
            } else {
                Ok(BufferHeader { magic, version, type_id, size })
            },
        }
    }
}

impl BufferHeader {
    /// Validates and extracts the preamble. The declared content size is a
    /// lower-bound check on the buffer's length only: trailing bytes beyond
    /// it are never rejected.
    pub fn parse(buffer: &[u8]) -> (r: Result<BufferHeader, DecodeError>)
        ensures
            r == spec_parse_header(buffer@),
    {
        if buffer.len() < VALUE_BUFFER_HEADER_SIZE {
            return Err(DecodeError::BufferTooSmall { context: FieldContext::Header });
        }
        let magic = read_u16_le(buffer, 0);
        let version = buffer[2];
        let type_id = match BufferType::from_u8(buffer[3]) {
            Ok(t) => t,
            Err(e) => {
                return Err(e);
            },
        };
        let size = read_u32_le(buffer, 4);

        if magic != VALUE_BUFFER_MAGIC {
            return Err(DecodeError::InvalidMagic { expected: VALUE_BUFFER_MAGIC, actual: magic });
        }
        if version != VALUE_BUFFER_VERSION {
            return Err(DecodeError::UnsupportedVersion {
                expected: VALUE_BUFFER_VERSION,
                actual: version,
            });
        }
        if (buffer.len() as u64) < 8u64 + (size as u64) {
            return Err(DecodeError::SizeMismatch {
                expected: 8u64 + (size as u64),
                actual: buffer.len() as u64,
            });
        }
        Ok(BufferHeader { magic, version, type_id, size })
    }
}

} // verus!
