//! The recursive content decoder and the public decode entry point.
//!
//! `spec_decode` states, as a total function of the bytes, what decoding one
//! value at a position yields: the value's model and the count of bytes
//! consumed, or the exact failure. The executable decoder is proved to return
//! precisely that, so decoding is deterministic and returns a typed error on
//! every malformed input.

use vstd::prelude::*;
use vstd::slice::{slice_subrange, slice_to_vec};
use vstd::utf8::{valid_utf8, decode_utf8};
use crate::errors::{DecodeError, FieldContext, Utf8Context};
use crate::tags::{BufferType, spec_tag_from_byte};
use crate::value::{
    Value, ValueSpec, ObjectMap, view_values, upsert_all, lemma_view_values_push,
    lemma_upsert_all_push,
};
use crate::wire::{spec_le16_at, spec_le32_at, spec_le64_at, read_u16_le, read_u32_le, read_u64_le};
use crate::header::{BufferHeader, spec_parse_header, VALUE_BUFFER_HEADER_SIZE};

verus! {

/// How many bytes remain from a position (none, once past the end).
pub open spec fn spec_remaining(b: Seq<u8>, pos: int) -> nat {
    if pos <= b.len() {
        (b.len() - pos) as nat
    } else {
        0
    }
}

/// What decoding a length-prefixed string payload yields: the decoded
/// characters and the bytes consumed, or the exact failure.
pub open spec fn spec_decode_str_payload(b: Seq<u8>, pos: int) -> Result<
    (Seq<char>, nat),
    DecodeError,
> {
    if pos + 4 > b.len() {
        Err(DecodeError::BufferTooSmall { context: FieldContext::StringLength })
    } else {
        let l = spec_le32_at(b, pos) as int;
        if pos + 4 + l > b.len() {
            Err(DecodeError::BufferTooSmall { context: FieldContext::StringData })
        } else {
            let bytes = b.subrange(pos + 4, pos + 4 + l);
            if !valid_utf8(bytes) {
                Err(DecodeError::InvalidUtf8 { context: Utf8Context::StringData })
            } else {
                Ok((decode_utf8(bytes), (4 + l) as nat))
            }
        }
    }
}

/// What decoding a length-prefixed opaque byte payload yields.
pub open spec fn spec_decode_buf_payload(b: Seq<u8>, pos: int) -> Result<
    (Seq<u8>, nat),
    DecodeError,
> {
    if pos + 4 > b.len() {
        Err(DecodeError::BufferTooSmall { context: FieldContext::BufLength })
    } else {
        let l = spec_le32_at(b, pos) as int;
        if pos + 4 + l > b.len() {
            Err(DecodeError::BufferTooSmall { context: FieldContext::BufData })
        } else {
            Ok((b.subrange(pos + 4, pos + 4 + l), (4 + l) as nat))
        }
    }
}

/// What decoding one value of the given tag at a position yields: the
/// value's model and the bytes consumed, or the first failure. This is the
/// wire grammar of the format, one clause per tag.
pub open spec fn spec_decode(b: Seq<u8>, pos: int, tag: BufferType) -> Result<
    (ValueSpec, nat),
    DecodeError,
>
    decreases spec_remaining(b, pos),
{
    match tag {
        BufferType::Invalid => Err(DecodeError::InvalidType),
        BufferType::Ptr => Err(DecodeError::UnsupportedType),
        BufferType::Bool => if pos + 1 > b.len() {
            Err(DecodeError::BufferTooSmall { context: FieldContext::BoolValue })
        } else {
            Ok((ValueSpec::Bool(b[pos] != 0), 1))
        },
        BufferType::Int8 => if pos + 1 > b.len() {
            Err(DecodeError::BufferTooSmall { context: FieldContext::Int8Value })
        } else {
            Ok((ValueSpec::Int8(b[pos] as i8), 1))
        },
        BufferType::Uint8 => if pos + 1 > b.len() {
            Err(DecodeError::BufferTooSmall { context: FieldContext::Uint8Value })
        } else {
            Ok((ValueSpec::Uint8(b[pos]), 1))
        },
        BufferType::Int16 => if pos + 2 > b.len() {
            Err(DecodeError::BufferTooSmall { context: FieldContext::Int16Value })
        } else {
            Ok((ValueSpec::Int16(spec_le16_at(b, pos) as i16), 2))
        },
        BufferType::Uint16 => if pos + 2 > b.len() {
            Err(DecodeError::BufferTooSmall { context: FieldContext::Uint16Value })
        } else {
            Ok((ValueSpec::Uint16(spec_le16_at(b, pos)), 2))
        },
        BufferType::Int32 => if pos + 4 > b.len() {
            Err(DecodeError::BufferTooSmall { context: FieldContext::Int32Value })
        } else {
            Ok((ValueSpec::Int32(spec_le32_at(b, pos) as i32), 4))
        },
        BufferType::Uint32 => if pos + 4 > b.len() {
            Err(DecodeError::BufferTooSmall { context: FieldContext::Uint32Value })
        } else {
            Ok((ValueSpec::Uint32(spec_le32_at(b, pos)), 4))
        },
        BufferType::Int64 => if pos + 8 > b.len() {
            Err(DecodeError::BufferTooSmall { context: FieldContext::Int64Value })
        } else {
            Ok((ValueSpec::Int64(spec_le64_at(b, pos) as i64), 8))
        },
        BufferType::Uint64 => if pos + 8 > b.len() {
            Err(DecodeError::BufferTooSmall { context: FieldContext::Uint64Value })
        } else {
            Ok((ValueSpec::Uint64(spec_le64_at(b, pos)), 8))
        },
        BufferType::Float32 => if pos + 4 > b.len() {
            Err(DecodeError::BufferTooSmall { context: FieldContext::Float32Value })
        } else {
            Ok((ValueSpec::Float32(spec_le32_at(b, pos)), 4))
        },
        BufferType::Float64 => if pos + 8 > b.len() {
            Err(DecodeError::BufferTooSmall { context: FieldContext::Float64Value })
        } else {
            Ok((ValueSpec::Float64(spec_le64_at(b, pos)), 8))
        },
        BufferType::String => match spec_decode_str_payload(b, pos) {
            Ok((s, c)) => Ok((ValueSpec::Str(s), c)),
            Err(e) => Err(e),
        },
        BufferType::JsonString => match spec_decode_str_payload(b, pos) {
            Ok((s, c)) => Ok((ValueSpec::JsonText(s), c)),
            Err(e) => Err(e),
        },
        BufferType::Buf => match spec_decode_buf_payload(b, pos) {
            Ok((bytes, c)) => Ok((ValueSpec::Buf(bytes), c)),
            Err(e) => Err(e),
        },
        BufferType::Array => if pos + 4 > b.len() {
            Err(DecodeError::BufferTooSmall { context: FieldContext::ArrayLength })
        } else {
            match spec_decode_items(b, pos + 4, spec_le32_at(b, pos) as int) {
                Ok((items, c)) => Ok((ValueSpec::Arr(items), (4 + c) as nat)),
                Err(e) => Err(e),
            }
        },
        BufferType::Object => if pos + 4 > b.len() {
            Err(DecodeError::BufferTooSmall { context: FieldContext::ObjectSize })
        } else {
            match spec_decode_entries(b, pos + 4, spec_le32_at(b, pos) as int) {
                Ok((entries, c)) => Ok((
                    ValueSpec::Obj(upsert_all(Seq::empty(), entries)),
                    (4 + c) as nat,
                )),
                Err(e) => Err(e),
            }
        },
    }
}

/// What decoding `n` array items (each a bare tag byte, then content) yields:
/// the item models in order and the bytes consumed, or the first failure.
pub open spec fn spec_decode_items(b: Seq<u8>, pos: int, n: int) -> Result<
    (Seq<ValueSpec>, nat),
    DecodeError,
>
    decreases spec_remaining(b, pos),
{
    if n <= 0 {
        Ok((Seq::empty(), 0))
    } else if pos + 1 > b.len() {
        Err(DecodeError::BufferTooSmall { context: FieldContext::ArrayItemTag })
    } else {
        match spec_tag_from_byte(b[pos]) {
            Err(e) => Err(e),
            Ok(t) => match spec_decode(b, pos + 1, t) {
                Err(e) => Err(e),
                Ok((v, c)) => match spec_decode_items(b, pos + 1 + c, n - 1) {
                    Err(e) => Err(e),
                    Ok((items, c2)) => Ok((seq![v] + items, (1 + c + c2) as nat)),
                },
            },
        }
    }
}

/// What decoding `n` object entries (each a length-prefixed UTF-8 key, then
/// a bare value tag byte, then value content) yields: the raw key/value
/// pairs in wire order and the bytes consumed, or the first failure.
pub open spec fn spec_decode_entries(b: Seq<u8>, pos: int, n: int) -> Result<
    (Seq<(Seq<char>, ValueSpec)>, nat),
    DecodeError,
>
    decreases spec_remaining(b, pos),
{
    if n <= 0 {
        Ok((Seq::empty(), 0))
    } else if pos + 4 > b.len() {
        Err(DecodeError::BufferTooSmall { context: FieldContext::ObjectKeyLength })
    } else {
        let klen = spec_le32_at(b, pos) as int;
        if pos + 4 + klen > b.len() {
            Err(DecodeError::BufferTooSmall { context: FieldContext::ObjectKeyData })
        } else {
            let kbytes = b.subrange(pos + 4, pos + 4 + klen);
            if !valid_utf8(kbytes) {
                Err(DecodeError::InvalidUtf8 { context: Utf8Context::ObjectKey })
            } else {
                let q = pos + 4 + klen;
                if q + 1 > b.len() {
                    Err(DecodeError::BufferTooSmall { context: FieldContext::ObjectValueTag })
                } else {
                    match spec_tag_from_byte(b[q]) {
                        Err(e) => Err(e),
                        Ok(t) => match spec_decode(b, q + 1, t) {
                            Err(e) => Err(e),
                            Ok((v, c)) => match spec_decode_entries(b, q + 1 + c, n - 1) {
                                Err(e) => Err(e),
                                Ok((entries, c2)) => Ok((
                                    seq![(decode_utf8(kbytes), v)] + entries,
                                    (4 + klen + 1 + c + c2) as nat,
                                )),
                            },
                        },
                    }
                }
            }
        }
    }
}

/// Prepends already-decoded elements (and their consumed bytes) to the
/// outcome of decoding the rest; a failure in the rest stays a failure.
pub open spec fn decode_step<T>(
    prefix: Seq<T>,
    consumed: nat,
    rest: Result<(Seq<T>, nat), DecodeError>,
) -> Result<(Seq<T>, nat), DecodeError> {
    match rest {
        Ok((items, c)) => Ok((prefix + items, (consumed + c) as nat)),
        Err(e) => Err(e),
    }
}

/// Prepending nothing changes nothing.
pub proof fn lemma_decode_step_identity<T>(rest: Result<(Seq<T>, nat), DecodeError>)
    ensures
        decode_step(Seq::empty(), 0, rest) == rest,
{
    match rest {
        Ok((items, c)) => {
            assert(Seq::<T>::empty() + items =~= items);
        },
        Err(e) => {},
    }
}

/// Two prepends collapse into one.
pub proof fn lemma_decode_step_compose<T>(
    p1: Seq<T>,
    c1: nat,
    p2: Seq<T>,
    c2: nat,
    rest: Result<(Seq<T>, nat), DecodeError>,
)
    ensures
        decode_step(p1, c1, decode_step(p2, c2, rest)) == decode_step(
            p1 + p2,
            (c1 + c2) as nat,
            rest,
        ),
{
    match rest {
        Ok((items, c)) => {
            assert(p1 + (p2 + items) =~= (p1 + p2) + items);
        },
        Err(e) => {},
    }
}

/// Prepending to an exhausted rest gives exactly the prefix.
pub proof fn lemma_decode_step_final<T>(prefix: Seq<T>, consumed: nat)
    ensures
        decode_step(prefix, consumed, Ok::<(Seq<T>, nat), DecodeError>((Seq::empty(), 0)))
            == Ok::<(Seq<T>, nat), DecodeError>((prefix, consumed)),
{
    assert(prefix + Seq::<T>::empty() =~= prefix);
}

/// Unfolds one successful item off the front of `spec_decode_items`.
pub proof fn lemma_decode_items_step(
    b: Seq<u8>,
    pos: int,
    n: int,
    t: BufferType,
    v: ValueSpec,
    c: nat,
)
    requires
        n > 0,
        pos + 1 <= b.len(),
        spec_tag_from_byte(b[pos]) == Ok::<BufferType, DecodeError>(t),
        spec_decode(b, pos + 1, t) == Ok::<(ValueSpec, nat), DecodeError>((v, c)),
    ensures
        spec_decode_items(b, pos, n) == decode_step(
            seq![v],
            (1 + c) as nat,
            spec_decode_items(b, pos + 1 + c, n - 1),
        ),
{
    match spec_decode_items(b, pos + 1 + c, n - 1) {
        Ok((items, c2)) => {},
        Err(e) => {},
    }
}

/// Unfolds one successful entry off the front of `spec_decode_entries`.
pub proof fn lemma_decode_entries_step(
    b: Seq<u8>,
    pos: int,
    n: int,
    klen: int,
    t: BufferType,
    v: ValueSpec,
    c: nat,
)
    requires
        n > 0,
        pos + 4 <= b.len(),
        klen == spec_le32_at(b, pos) as int,
        pos + 4 + klen <= b.len(),
        valid_utf8(b.subrange(pos + 4, pos + 4 + klen)),
        pos + 4 + klen + 1 <= b.len(),
        spec_tag_from_byte(b[pos + 4 + klen]) == Ok::<BufferType, DecodeError>(t),
        spec_decode(b, pos + 4 + klen + 1, t) == Ok::<(ValueSpec, nat), DecodeError>((v, c)),
    ensures
        spec_decode_entries(b, pos, n) == decode_step(
            seq![(decode_utf8(b.subrange(pos + 4, pos + 4 + klen)), v)],
            (4 + klen + 1 + c) as nat,
            spec_decode_entries(b, pos + 4 + klen + 1 + c, n - 1),
        ),
{
    match spec_decode_entries(b, pos + 4 + klen + 1 + c, n - 1) {
        Ok((entries, c2)) => {},
        Err(e) => {},
    }
}

/// Decodes a length-prefixed string payload: four little-endian length
/// bytes, then that many bytes of UTF-8 text (a zero length is an empty
/// string).
fn decode_string_payload(buffer: &[u8], pos: usize) -> (r: Result<(String, usize), DecodeError>)
    requires
        pos <= buffer@.len(),
    ensures
        match r {
            Ok((s, end)) => pos <= end <= buffer@.len() && spec_decode_str_payload(
                buffer@,
                pos as int,
            ) == Ok::<(Seq<char>, nat), DecodeError>((s@, (end - pos) as nat)),
            Err(e) => spec_decode_str_payload(buffer@, pos as int) == Err::<
                (Seq<char>, nat),
                DecodeError,
            >(e),
        },
{
    let n = buffer.len();
    if n - pos < 4 {
        return Err(DecodeError::BufferTooSmall { context: FieldContext::StringLength });
    }
    let l = read_u32_le(buffer, pos) as usize;
    let data_start = pos + 4;
    if l == 0 {
        proof {
            assert(buffer@.subrange(pos + 4, pos + 4) =~= Seq::<u8>::empty());
            assert(valid_utf8(Seq::<u8>::empty()));
            assert(decode_utf8(Seq::<u8>::empty()) =~= Seq::<char>::empty());
        }
        return Ok((String::new(), data_start));
    }
    if n - data_start < l {
        return Err(DecodeError::BufferTooSmall { context: FieldContext::StringData });
    }
    let bytes = slice_to_vec(slice_subrange(buffer, data_start, data_start + l));
    match crate::trusted::string_from_utf8(bytes) {
        Some(s) => Ok((s, data_start + l)),
        None => Err(DecodeError::InvalidUtf8 { context: Utf8Context::StringData }),
    }
}

/// Decodes a length-prefixed opaque byte payload (a zero length is an empty
/// buffer).
fn decode_buf_payload(buffer: &[u8], pos: usize) -> (r: Result<(Vec<u8>, usize), DecodeError>)
    requires
        pos <= buffer@.len(),
    ensures
        match r {
            Ok((bytes, end)) => pos <= end <= buffer@.len() && spec_decode_buf_payload(
                buffer@,
                pos as int,
            ) == Ok::<(Seq<u8>, nat), DecodeError>((bytes@, (end - pos) as nat)),
            Err(e) => spec_decode_buf_payload(buffer@, pos as int) == Err::<
                (Seq<u8>, nat),
                DecodeError,
            >(e),
        },
{
    let n = buffer.len();
    if n - pos < 4 {
        return Err(DecodeError::BufferTooSmall { context: FieldContext::BufLength });
    }
    let l = read_u32_le(buffer, pos) as usize;
    let data_start = pos + 4;
    if l == 0 {
        proof {
            assert(buffer@.subrange(pos + 4, pos + 4) =~= Seq::<u8>::empty());
        }
        return Ok((Vec::new(), data_start));
    }
    if n - data_start < l {
        return Err(DecodeError::BufferTooSmall { context: FieldContext::BufData });
    }
    let bytes = slice_to_vec(slice_subrange(buffer, data_start, data_start + l));
    Ok((bytes, data_start + l))
}

/// Decodes one value of the given tag starting at `pos`, returning it with
/// the position just past its content.
fn decode_value(buffer: &[u8], pos: usize, buffer_type: BufferType) -> (r: Result<
    (Value, usize),
    DecodeError,
>)
    requires
        pos <= buffer@.len(),
    ensures
        match r {
            Ok((v, end)) => pos <= end <= buffer@.len() && spec_decode(
                buffer@,
                pos as int,
                buffer_type,
            ) == Ok::<(ValueSpec, nat), DecodeError>((v@, (end - pos) as nat)),
            Err(e) => spec_decode(buffer@, pos as int, buffer_type) == Err::<
                (ValueSpec, nat),
                DecodeError,
            >(e),
        },
    decreases buffer@.len() - pos,
{
    let n = buffer.len();
    match buffer_type {
        BufferType::Invalid => Err(DecodeError::InvalidType),
        BufferType::Ptr => Err(DecodeError::UnsupportedType),
        BufferType::Bool => {
            if n - pos < 1 {
                return Err(DecodeError::BufferTooSmall { context: FieldContext::BoolValue });
            }
            Ok((Value::Bool(buffer[pos] != 0), pos + 1))
        },
        BufferType::Int8 => {
            if n - pos < 1 {
                return Err(DecodeError::BufferTooSmall { context: FieldContext::Int8Value });
            }
            let val = #[verifier::truncate] (buffer[pos] as i8);
            Ok((Value::Int8(val), pos + 1))
        },
        BufferType::Uint8 => {
            if n - pos < 1 {
                return Err(DecodeError::BufferTooSmall { context: FieldContext::Uint8Value });
            }
            Ok((Value::Uint8(buffer[pos]), pos + 1))
        },
        BufferType::Int16 => {
            if n - pos < 2 {
                return Err(DecodeError::BufferTooSmall { context: FieldContext::Int16Value });
            }
            let val = #[verifier::truncate] (read_u16_le(buffer, pos) as i16);
            Ok((Value::Int16(val), pos + 2))
        },
        BufferType::Uint16 => {
            if n - pos < 2 {
                return Err(DecodeError::BufferTooSmall { context: FieldContext::Uint16Value });
            }
            Ok((Value::Uint16(read_u16_le(buffer, pos)), pos + 2))
        },
        BufferType::Int32 => {
            if n - pos < 4 {
                return Err(DecodeError::BufferTooSmall { context: FieldContext::Int32Value });
            }
            let val = #[verifier::truncate] (read_u32_le(buffer, pos) as i32);
            Ok((Value::Int32(val), pos + 4))
        },
        BufferType::Uint32 => {
            if n - pos < 4 {
                return Err(DecodeError::BufferTooSmall { context: FieldContext::Uint32Value });
            }
            Ok((Value::Uint32(read_u32_le(buffer, pos)), pos + 4))
        },
        BufferType::Int64 => {
            if n - pos < 8 {
                return Err(DecodeError::BufferTooSmall { context: FieldContext::Int64Value });
            }
            let val = #[verifier::truncate] (read_u64_le(buffer, pos) as i64);
            Ok((Value::Int64(val), pos + 8))
        },
        BufferType::Uint64 => {
            if n - pos < 8 {
                return Err(DecodeError::BufferTooSmall { context: FieldContext::Uint64Value });
            }
            Ok((Value::Uint64(read_u64_le(buffer, pos)), pos + 8))
        },
        BufferType::Float32 => {
            if n - pos < 4 {
                return Err(DecodeError::BufferTooSmall { context: FieldContext::Float32Value });
            }
            Ok((Value::Float32(read_u32_le(buffer, pos)), pos + 4))
        },
        BufferType::Float64 => {
            if n - pos < 8 {
                return Err(DecodeError::BufferTooSmall { context: FieldContext::Float64Value });
            }
            Ok((Value::Float64(read_u64_le(buffer, pos)), pos + 8))
        },
        BufferType::String => match decode_string_payload(buffer, pos) {
            Ok((s, end)) => Ok((Value::String(s), end)),
            Err(e) => Err(e),
        },
        BufferType::JsonString => match decode_string_payload(buffer, pos) {
            Ok((s, end)) => Ok((Value::JsonString(s), end)),
            Err(e) => Err(e),
        },
        BufferType::Buf => match decode_buf_payload(buffer, pos) {
            Ok((bytes, end)) => Ok((Value::Buf(bytes), end)),
            Err(e) => Err(e),
        },
        BufferType::Array => {
            if n - pos < 4 {
                return Err(DecodeError::BufferTooSmall { context: FieldContext::ArrayLength });
            }
            let count = read_u32_le(buffer, pos);
            let p0 = pos + 4;
            let mut items: Vec<Value> = Vec::new();
            let mut cur = p0;
            let mut i: u32 = 0;
            proof {
                lemma_decode_step_identity(
                    spec_decode_items(buffer@, p0 as int, count as int),
                );
            }
            while i < count
                invariant
                    buffer_type == BufferType::Array,
                    n == buffer@.len(),
                    pos + 4 == p0,
                    p0 <= cur <= n,
                    i <= count,
                    count == spec_le32_at(buffer@, pos as int),
                    spec_decode_items(buffer@, p0 as int, count as int) == decode_step(
                        view_values(items@),
                        (cur - p0) as nat,
                        spec_decode_items(buffer@, cur as int, count - i),
                    ),
                decreases count - i,
            {
                if n - cur < 1 {
                    return Err(DecodeError::BufferTooSmall {
                        context: FieldContext::ArrayItemTag,
                    });
                }
                let item_tag = match BufferType::from_u8(buffer[cur]) {
                    Ok(t) => t,
                    Err(e) => {
                        return Err(e);
                    },
                };
                let tag_pos = cur;
                cur = cur + 1;
                match decode_value(buffer, cur, item_tag) {
                    Err(e) => {
                        return Err(e);
                    },
                    Ok((item, end)) => {
                        proof {
                            lemma_decode_items_step(
                                buffer@,
                                tag_pos as int,
                                count - i,
                                item_tag,
                                item@,
                                (end - cur) as nat,
                            );
                            lemma_decode_step_compose(
                                view_values(items@),
                                (tag_pos - p0) as nat,
                                seq![item@],
                                (1 + end - cur) as nat,
                                spec_decode_items(buffer@, end as int, count - i - 1),
                            );
                            lemma_view_values_push(items@, item);
                            assert(view_values(items@) + seq![item@]
                                =~= view_values(items@).push(item@));
                        }
                        items.push(item);
                        cur = end;
                        i = i + 1;
                    },
                }
            }
            proof {
                lemma_decode_step_final(view_values(items@), (cur - p0) as nat);
            }
            Ok((Value::Array(items), cur))
        },
        BufferType::Object => {
            if n - pos < 4 {
                return Err(DecodeError::BufferTooSmall { context: FieldContext::ObjectSize });
            }
            let count = read_u32_le(buffer, pos);
            let p0 = pos + 4;
            let mut obj = ObjectMap::new();
            let ghost mut raw: Seq<(Seq<char>, ValueSpec)> = Seq::empty();
            let mut cur = p0;
            let mut i: u32 = 0;
            proof {
                lemma_decode_step_identity(
                    spec_decode_entries(buffer@, p0 as int, count as int),
                );
            }
            while i < count
                invariant
                    buffer_type == BufferType::Object,
                    n == buffer@.len(),
                    pos + 4 == p0,
                    p0 <= cur <= n,
                    i <= count,
                    count == spec_le32_at(buffer@, pos as int),
                    obj@ == upsert_all(Seq::empty(), raw),
                    spec_decode_entries(buffer@, p0 as int, count as int) == decode_step(
                        raw,
                        (cur - p0) as nat,
                        spec_decode_entries(buffer@, cur as int, count - i),
                    ),
                decreases count - i,
            {
                if n - cur < 4 {
                    return Err(DecodeError::BufferTooSmall {
                        context: FieldContext::ObjectKeyLength,
                    });
                }
                let klen = read_u32_le(buffer, cur) as usize;
                if n - (cur + 4) < klen {
                    return Err(DecodeError::BufferTooSmall {
                        context: FieldContext::ObjectKeyData,
                    });
                }
                let kbytes = slice_to_vec(slice_subrange(buffer, cur + 4, cur + 4 + klen));
                let key = match crate::trusted::string_from_utf8(kbytes) {
                    Some(k) => k,
                    None => {
                        return Err(DecodeError::InvalidUtf8 { context: Utf8Context::ObjectKey });
                    },
                };
                let q = cur + 4 + klen;
                if n - q < 1 {
                    return Err(DecodeError::BufferTooSmall {
                        context: FieldContext::ObjectValueTag,
                    });
                }
                let value_tag = match BufferType::from_u8(buffer[q]) {
                    Ok(t) => t,
                    Err(e) => {
                        return Err(e);
                    },
                };
                match decode_value(buffer, q + 1, value_tag) {
                    Err(e) => {
                        return Err(e);
                    },
                    Ok((val, end)) => {
                        let ghost kview = key@;
                        proof {
                            lemma_decode_entries_step(
                                buffer@,
                                cur as int,
                                count - i,
                                klen as int,
                                value_tag,
                                val@,
                                (end - (q + 1)) as nat,
                            );
                            lemma_decode_step_compose(
                                raw,
                                (cur - p0) as nat,
                                seq![(kview, val@)],
                                (4 + klen + 1 + (end - (q + 1))) as nat,
                                spec_decode_entries(buffer@, end as int, count - i - 1),
                            );
                            lemma_upsert_all_push(Seq::empty(), raw, kview, val@);
                            assert(raw + seq![(kview, val@)] =~= raw.push((kview, val@)));
                        }
                        obj.insert(key, val);
                        proof {
                            raw = raw.push((kview, val@));
                        }
                        cur = end;
                        i = i + 1;
                    },
                }
            }
            proof {
                lemma_decode_step_final(raw, (cur - p0) as nat);
            }
            Ok((Value::Object(obj), cur))
        },
    }
}

/// Decodes one value of the given tag at the cursor, advancing the cursor by
/// exactly the bytes consumed; on failure the cursor is left where it was
/// and must not be reused.
pub fn deserialize_content(buffer: &[u8], pos: &mut usize, buffer_type: BufferType) -> (r: Result<
    Value,
    DecodeError,
>)
    requires
        *old(pos) <= buffer@.len(),
    ensures
        match r {
            Ok(v) => *old(pos) <= *final(pos) <= buffer@.len() && spec_decode(
                buffer@,
                *old(pos) as int,
                buffer_type,
            ) == Ok::<(ValueSpec, nat), DecodeError>((v@, (*final(pos) - *old(pos)) as nat)),
            Err(e) => *final(pos) == *old(pos) && spec_decode(buffer@, *old(pos) as int, buffer_type)
                == Err::<(ValueSpec, nat), DecodeError>(e),
        },
{
    match decode_value(buffer, *pos, buffer_type) {
        Ok((v, end)) => {
            *pos = end;
            Ok(v)
        },
        Err(e) => Err(e),
    }
}

/// What deserializing a whole buffer yields: header validation, then one
/// value decoded immediately after the header under the header's tag. Bytes
/// past what the decode consumes are ignored.
pub open spec fn spec_deserialize(b: Seq<u8>) -> Result<ValueSpec, DecodeError> {
    match spec_parse_header(b) {
        Err(e) => Err(e),
        Ok(h) => match spec_decode(b, 8, h.type_id) {
            Ok((v, c)) => Ok(v),
            Err(e) => Err(e),
        },
    }
}

/// Decoding is deterministic: the outcome is a total function of the bytes
/// alone, so decoding equal buffers gives structurally identical results.
/// (`deserialize_from_buffer` returns exactly `spec_deserialize` of its
/// input, so two runs over the same bytes agree.)
pub proof fn lemma_decode_deterministic(b1: Seq<u8>, b2: Seq<u8>)
    requires
        b1 == b2,
    ensures
        spec_deserialize(b1) == spec_deserialize(b2),
{
}

/// Deserializes one value from a buffer: validates the 8-byte header, then
/// decodes exactly one value of the header's declared type. The first
/// failure is returned; no partial result ever is.
pub fn deserialize_from_buffer(buffer: &[u8]) -> (r: Result<Value, DecodeError>)
    ensures
        match r {
            Ok(v) => spec_deserialize(buffer@) == Ok::<ValueSpec, DecodeError>(v@),
            Err(e) => spec_deserialize(buffer@) == Err::<ValueSpec, DecodeError>(e),
        },
{
    let header = match BufferHeader::parse(buffer) {
        Ok(h) => h,
        Err(e) => {
            return Err(e);
        },
    };
    let mut pos: usize = VALUE_BUFFER_HEADER_SIZE;
    match deserialize_content(buffer, &mut pos, header.type_id) {
        Ok(v) => Ok(v),
        Err(e) => Err(e),
    }
}

} // verus!
