//! The structured failures of header validation and content decoding.
//!
//! Every failure is a local, recoverable condition carrying enough typed
//! context (expected versus actual values, or which wire field was being
//! read) to diagnose the malformed region without re-parsing the input.

use vstd::prelude::*;

verus! {

/// Which wire field a bounds check was reading when the buffer ran out.
#[derive(Debug, Clone, Copy, PartialEq, Eq, Structural)]
pub enum FieldContext {
    Header,
    BoolValue,
    Int8Value,
    Int16Value,
    Int32Value,
    Int64Value,
    Uint8Value,
    Uint16Value,
    Uint32Value,
    Uint64Value,
    Float32Value,
    Float64Value,
    StringLength,
    StringData,
    BufLength,
    BufData,
    ArrayLength,
    ArrayItemTag,
    ObjectSize,
    ObjectKeyLength,
    ObjectKeyData,
    ObjectValueTag,
}

/// Which string-valued wire field held the malformed UTF-8.
#[derive(Debug, Clone, Copy, PartialEq, Eq, Structural)]
pub enum Utf8Context {
    StringData,
    ObjectKey,
}

/// A decode failure. Decoding aborts at the first failure and returns it;
/// nothing is retried or partially recovered.
#[derive(Debug, Clone, Copy, PartialEq, Eq, Structural)]
pub enum DecodeError {
    /// Fewer bytes remained than the named field requires.
    BufferTooSmall { context: FieldContext },
    /// The two magic bytes did not hold the expected pattern.
    InvalidMagic { expected: u16, actual: u16 },
    /// The version byte named a protocol version this decoder does not speak.
    UnsupportedVersion { expected: u8, actual: u8 },
    /// The buffer is shorter than the header plus its declared content size.
    SizeMismatch { expected: u64, actual: u64 },
    /// The tag byte is outside the defined tag table.
    UnknownTag { value: u8 },
    /// A string-valued field held bytes that are not valid UTF-8.
    InvalidUtf8 { context: Utf8Context },
    /// The invalid tag can never be decoded into a value.
    InvalidType,
    /// Native-pointer values cannot be represented in a portable value tree.
    UnsupportedType,
}

} // verus!
