//! The wire type-tag table: the enumerated set of type identifiers and the
//! total rule mapping a raw byte to a tag or to an unknown-tag failure.

use vstd::prelude::*;
use crate::errors::DecodeError;

verus! {

/// A wire type tag. Exactly the bytes 0 through 17 name a tag; every other
/// byte is rejected by [`BufferType::from_u8`].
#[derive(Debug, Clone, Copy, PartialEq, Eq, Structural)]
pub enum BufferType {
    Invalid,
    Bool,
    Int8,
    Int16,
    Int32,
    Int64,
    Uint8,
    Uint16,
    Uint32,
    Uint64,
    Float32,
    Float64,
    String,
    Buf,
    Array,
    Object,
    Ptr,
    JsonString,
}

/// The byte that encodes each tag on the wire.
pub open spec fn spec_tag_byte(t: BufferType) -> u8 {
    match t {
        BufferType::Invalid => 0,
        BufferType::Bool => 1,
        BufferType::Int8 => 2,
        BufferType::Int16 => 3,
        BufferType::Int32 => 4,
        BufferType::Int64 => 5,
        BufferType::Uint8 => 6,
        BufferType::Uint16 => 7,
        BufferType::Uint32 => 8,
        BufferType::Uint64 => 9,
        BufferType::Float32 => 10,
        BufferType::Float64 => 11,
        BufferType::String => 12,
        BufferType::Buf => 13,
        BufferType::Array => 14,
        BufferType::Object => 15,
        BufferType::Ptr => 16,
        BufferType::JsonString => 17,
    }
}

/// The tag named by a byte: defined for 0 through 17, an unknown-tag
/// failure for every other byte.
pub open spec fn spec_tag_from_byte(value: u8) -> Result<BufferType, DecodeError> {
    if value == 0 {
        Ok(BufferType::Invalid)
    } else if value == 1 {
        Ok(BufferType::Bool)
    } else if value == 2 {
        Ok(BufferType::Int8)
    } else if value == 3 {
        Ok(BufferType::Int16)
    } else if value == 4 {
        Ok(BufferType::Int32)
    } else if value == 5 {
        Ok(BufferType::Int64)
    } else if value == 6 {
        Ok(BufferType::Uint8)
    } else if value == 7 {
        Ok(BufferType::Uint16)
    } else if value == 8 {
        Ok(BufferType::Uint32)
    } else if value == 9 {
        Ok(BufferType::Uint64)
    } else if value == 10 {
        Ok(BufferType::Float32)
    } else if value == 11 {
        Ok(BufferType::Float64)
    } else if value == 12 {
        Ok(BufferType::String)
    } else if value == 13 {
        Ok(BufferType::Buf)
    } else if value == 14 {
        Ok(BufferType::Array)
    } else if value == 15 {
        Ok(BufferType::Object)
    } else if value == 16 {
        Ok(BufferType::Ptr)
    } else if value == 17 {
        Ok(BufferType::JsonString)
    } else {
        Err(DecodeError::UnknownTag { value })
    }
}

impl BufferType {
    /// Maps a raw byte to its tag; total over all 256 bytes, succeeding
    /// exactly on the 18 defined tag values.
    pub fn from_u8(value: u8) -> (r: Result<BufferType, DecodeError>)
        ensures
            r == spec_tag_from_byte(value),
            r matches Ok(t) ==> spec_tag_byte(t) == value,
    {
        match value {
            0 => Ok(BufferType::Invalid),
            1 => Ok(BufferType::Bool),
            2 => Ok(BufferType::Int8),
            3 => Ok(BufferType::Int16),
            4 => Ok(BufferType::Int32),
            5 => Ok(BufferType::Int64),
            6 => Ok(BufferType::Uint8),
            7 => Ok(BufferType::Uint16),
            8 => Ok(BufferType::Uint32),
            9 => Ok(BufferType::Uint64),
            10 => Ok(BufferType::Float32),
            11 => Ok(BufferType::Float64),
            12 => Ok(BufferType::String),
            13 => Ok(BufferType::Buf),
            14 => Ok(BufferType::Array),
            15 => Ok(BufferType::Object),
            16 => Ok(BufferType::Ptr),
            17 => Ok(BufferType::JsonString),
            _ => Err(DecodeError::UnknownTag { value }),
        }
    }
}

/// Reading back the byte of a defined tag names that tag again.
pub proof fn lemma_tag_byte_from_byte(t: BufferType)
    ensures
        spec_tag_from_byte(spec_tag_byte(t)) == Ok::<BufferType, DecodeError>(t),
{
}

} // verus!
