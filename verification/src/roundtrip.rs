//! Round-trip soundness: a buffer built according to the wire grammar
//! decodes back to exactly the tree it encodes.
//!
//! `spec_encode_buffer` writes a well-formed value down as the grammar says
//! (header, then tagged content); `lemma_round_trip` proves that
//! `spec_deserialize` of that buffer returns the value unchanged, type for
//! type, value for value, array order preserved.

use vstd::prelude::*;
use vstd::utf8::{encode_utf8, valid_utf8, decode_utf8, encode_utf8_valid_utf8,
    encode_utf8_decode_utf8};
use crate::errors::DecodeError;
use crate::tags::{BufferType, spec_tag_byte, spec_tag_from_byte, lemma_tag_byte_from_byte};
use crate::value::{
    ValueSpec, keys_unique, find_key, spec_upsert, upsert_all, lemma_find_key,
};
use crate::wire::{spec_le16_at, spec_le32_at, spec_le64_at};
use crate::header::{
    BufferHeader, spec_parse_header, VALUE_BUFFER_MAGIC, VALUE_BUFFER_VERSION,
};
use crate::decode::{
    spec_decode, spec_decode_items, spec_decode_entries, spec_deserialize,
};

verus! {

/// The wire tag a value is encoded under.
pub open spec fn spec_tag_of(v: ValueSpec) -> BufferType {
    match v {
        ValueSpec::Bool(_) => BufferType::Bool,
        ValueSpec::Int8(_) => BufferType::Int8,
        ValueSpec::Int16(_) => BufferType::Int16,
        ValueSpec::Int32(_) => BufferType::Int32,
        ValueSpec::Int64(_) => BufferType::Int64,
        ValueSpec::Uint8(_) => BufferType::Uint8,
        ValueSpec::Uint16(_) => BufferType::Uint16,
        ValueSpec::Uint32(_) => BufferType::Uint32,
        ValueSpec::Uint64(_) => BufferType::Uint64,
        ValueSpec::Float32(_) => BufferType::Float32,
        ValueSpec::Float64(_) => BufferType::Float64,
        ValueSpec::Str(_) => BufferType::String,
        ValueSpec::Buf(_) => BufferType::Buf,
        ValueSpec::Arr(_) => BufferType::Array,
        ValueSpec::Obj(_) => BufferType::Object,
        ValueSpec::JsonText(_) => BufferType::JsonString,
    }
}

/// The two little-endian bytes of a 16-bit value.
pub open spec fn le16_bytes(x: u16) -> Seq<u8> {
    seq![(x & 0xff) as u8, ((x >> 8u16) & 0xff) as u8]
}

/// The four little-endian bytes of a 32-bit value.
pub open spec fn le32_bytes(x: u32) -> Seq<u8> {
    seq![
        (x & 0xff) as u8,
        ((x >> 8u32) & 0xff) as u8,
        ((x >> 16u32) & 0xff) as u8,
        ((x >> 24u32) & 0xff) as u8,
    ]
}

/// The eight little-endian bytes of a 64-bit value.
pub open spec fn le64_bytes(x: u64) -> Seq<u8> {
    seq![
        (x & 0xff) as u8,
        ((x >> 8u64) & 0xff) as u8,
        ((x >> 16u64) & 0xff) as u8,
        ((x >> 24u64) & 0xff) as u8,
        ((x >> 32u64) & 0xff) as u8,
        ((x >> 40u64) & 0xff) as u8,
        ((x >> 48u64) & 0xff) as u8,
        ((x >> 56u64) & 0xff) as u8,
    ]
}

/// A value the wire grammar can carry: every length-prefixed field fits its
/// four-byte length prefix, and object keys are unique.
pub open spec fn spec_wf(v: ValueSpec) -> bool
    decreases v,
{
    match v {
        ValueSpec::Str(s) => encode_utf8(s).len() < 0x100000000,
        ValueSpec::JsonText(s) => encode_utf8(s).len() < 0x100000000,
        ValueSpec::Buf(bytes) => bytes.len() < 0x100000000,
        ValueSpec::Arr(items) => items.len() < 0x100000000 && (forall|i: int|
            0 <= i < items.len() ==> spec_wf(#[trigger] items[i])),
        ValueSpec::Obj(entries) => entries.len() < 0x100000000 && keys_unique(entries)
            && (forall|i: int| 0 <= i < entries.len()
                ==> encode_utf8((#[trigger] entries[i]).0).len() < 0x100000000
                    && spec_wf(entries[i].1)),
        _ => true,
    }
}

/// The content bytes of one value, per the wire grammar (no header and no
/// leading tag byte: composites write each child's tag themselves).
pub open spec fn spec_encode(v: ValueSpec) -> Seq<u8>
    decreases v,
{
    match v {
        ValueSpec::Bool(x) => seq![if x { 1u8 } else { 0u8 }],
        ValueSpec::Int8(x) => seq![x as u8],
        ValueSpec::Uint8(x) => seq![x],
        ValueSpec::Int16(x) => le16_bytes(x as u16),
        ValueSpec::Uint16(x) => le16_bytes(x),
        ValueSpec::Int32(x) => le32_bytes(x as u32),
        ValueSpec::Uint32(x) => le32_bytes(x),
        ValueSpec::Int64(x) => le64_bytes(x as u64),
        ValueSpec::Uint64(x) => le64_bytes(x),
        ValueSpec::Float32(bits) => le32_bytes(bits),
        ValueSpec::Float64(bits) => le64_bytes(bits),
        ValueSpec::Str(s) => le32_bytes(encode_utf8(s).len() as u32) + encode_utf8(s),
        ValueSpec::JsonText(s) => le32_bytes(encode_utf8(s).len() as u32) + encode_utf8(s),
        ValueSpec::Buf(bytes) => le32_bytes(bytes.len() as u32) + bytes,
        ValueSpec::Arr(items) => le32_bytes(items.len() as u32) + spec_encode_items(items),
        ValueSpec::Obj(entries) => le32_bytes(entries.len() as u32) + spec_encode_entries(entries),
    }
}

/// The bytes of a run of array items: each a tag byte, then its content.
pub open spec fn spec_encode_items(items: Seq<ValueSpec>) -> Seq<u8>
    decreases items,
{
    if items.len() == 0 {
        Seq::empty()
    } else {
        seq![spec_tag_byte(spec_tag_of(items[0]))] + spec_encode(items[0]) + spec_encode_items(
            items.drop_first(),
        )
    }
}

/// The bytes of a run of object entries: each a length-prefixed UTF-8 key,
/// then a tag byte, then the value's content.
pub open spec fn spec_encode_entries(entries: Seq<(Seq<char>, ValueSpec)>) -> Seq<u8>
    decreases entries,
{
    if entries.len() == 0 {
        Seq::empty()
    } else {
        le32_bytes(encode_utf8(entries[0].0).len() as u32) + encode_utf8(entries[0].0)
            + seq![spec_tag_byte(spec_tag_of(entries[0].1))] + spec_encode(entries[0].1)
            + spec_encode_entries(entries.drop_first())
    }
}

/// A whole buffer per the wire grammar: magic, version, top-level tag,
/// declared content size, then the content.
pub open spec fn spec_encode_buffer(v: ValueSpec) -> Seq<u8> {
    le16_bytes(VALUE_BUFFER_MAGIC) + seq![VALUE_BUFFER_VERSION, spec_tag_byte(spec_tag_of(v))]
        + le32_bytes(spec_encode(v).len() as u32) + spec_encode(v)
}

/// A piece of a byte sequence that equals a known encoding has the
/// encoding's pieces at the matching offsets.
pub proof fn lemma_subrange_within(b: Seq<u8>, pos: int, e: Seq<u8>, off: int, l: int)
    requires
        0 <= pos,
        pos + e.len() <= b.len(),
        b.subrange(pos, pos + e.len() as int) == e,
        0 <= off,
        0 <= l,
        off + l <= e.len(),
    ensures
        b.subrange(pos + off, pos + off + l) == e.subrange(off, off + l),
{
    assert forall|j: int| 0 <= j < l implies #[trigger] b.subrange(pos + off, pos + off + l)[j]
        == e.subrange(off, off + l)[j] by {
        assert(b.subrange(pos, pos + e.len() as int)[off + j] == b[pos + off + j]);
    }
    assert(b.subrange(pos + off, pos + off + l) =~= e.subrange(off, off + l));
}

/// One byte of a matched encoding, at its offset.
pub proof fn lemma_byte_within(b: Seq<u8>, pos: int, e: Seq<u8>, off: int)
    requires
        0 <= pos,
        pos + e.len() <= b.len(),
        b.subrange(pos, pos + e.len() as int) == e,
        0 <= off < e.len(),
    ensures
        b[pos + off] == e[off],
{
    assert(b.subrange(pos, pos + e.len() as int)[off] == b[pos + off]);
}

/// Reading two little-endian bytes back gives the encoded 16-bit value.
pub proof fn lemma_le16_bytes_at(b: Seq<u8>, pos: int, x: u16)
    requires
        0 <= pos,
        pos + 2 <= b.len(),
        b.subrange(pos, pos + 2) == le16_bytes(x),
    ensures
        spec_le16_at(b, pos) == x,
{
    lemma_byte_within(b, pos, le16_bytes(x), 0);
    lemma_byte_within(b, pos, le16_bytes(x), 1);
    let b0 = b[pos];
    let b1 = b[pos + 1];
    assert(b0 as u16 + (b1 as u16) * 0x100 == x) by (bit_vector)
        requires
            b0 == (x & 0xff) as u8,
            b1 == ((x >> 8u16) & 0xff) as u8,
    ;
}

/// Reading four little-endian bytes back gives the encoded 32-bit value.
pub proof fn lemma_le32_bytes_at(b: Seq<u8>, pos: int, x: u32)
    requires
        0 <= pos,
        pos + 4 <= b.len(),
        b.subrange(pos, pos + 4) == le32_bytes(x),
    ensures
        spec_le32_at(b, pos) == x,
{
    lemma_byte_within(b, pos, le32_bytes(x), 0);
    lemma_byte_within(b, pos, le32_bytes(x), 1);
    lemma_byte_within(b, pos, le32_bytes(x), 2);
    lemma_byte_within(b, pos, le32_bytes(x), 3);
    let b0 = b[pos];
    let b1 = b[pos + 1];
    let b2 = b[pos + 2];
    let b3 = b[pos + 3];
    assert(b0 as u32 + (b1 as u32) * 0x100 + (b2 as u32) * 0x10000 + (b3 as u32) * 0x1000000
        == x) by (bit_vector)
        requires
            b0 == (x & 0xff) as u8,
            b1 == ((x >> 8u32) & 0xff) as u8,
            b2 == ((x >> 16u32) & 0xff) as u8,
            b3 == ((x >> 24u32) & 0xff) as u8,
    ;
}

/// Reading eight little-endian bytes back gives the encoded 64-bit value.
pub proof fn lemma_le64_bytes_at(b: Seq<u8>, pos: int, x: u64)
    requires
        0 <= pos,
        pos + 8 <= b.len(),
        b.subrange(pos, pos + 8) == le64_bytes(x),
    ensures
        spec_le64_at(b, pos) == x,
{
    lemma_byte_within(b, pos, le64_bytes(x), 0);
    lemma_byte_within(b, pos, le64_bytes(x), 1);
    lemma_byte_within(b, pos, le64_bytes(x), 2);
    lemma_byte_within(b, pos, le64_bytes(x), 3);
    lemma_byte_within(b, pos, le64_bytes(x), 4);
    lemma_byte_within(b, pos, le64_bytes(x), 5);
    lemma_byte_within(b, pos, le64_bytes(x), 6);
    lemma_byte_within(b, pos, le64_bytes(x), 7);
    let b0 = b[pos];
    let b1 = b[pos + 1];
    let b2 = b[pos + 2];
    let b3 = b[pos + 3];
    let b4 = b[pos + 4];
    let b5 = b[pos + 5];
    let b6 = b[pos + 6];
    let b7 = b[pos + 7];
    assert(b0 as u64 + (b1 as u64) * 0x100 + (b2 as u64) * 0x10000 + (b3 as u64) * 0x1000000
        + (b4 as u64) * 0x100000000 + (b5 as u64) * 0x10000000000
        + (b6 as u64) * 0x1000000000000 + (b7 as u64) * 0x100000000000000 == x) by (bit_vector)
        requires
            b0 == (x & 0xff) as u8,
            b1 == ((x >> 8u64) & 0xff) as u8,
            b2 == ((x >> 16u64) & 0xff) as u8,
            b3 == ((x >> 24u64) & 0xff) as u8,
            b4 == ((x >> 32u64) & 0xff) as u8,
            b5 == ((x >> 40u64) & 0xff) as u8,
            b6 == ((x >> 48u64) & 0xff) as u8,
            b7 == ((x >> 56u64) & 0xff) as u8,
    ;
}

/// Folding entries whose keys are all new (unique among themselves and
/// absent from the accumulator) just appends them in order.
pub proof fn lemma_upsert_all_unique_id(
    acc: Seq<(Seq<char>, ValueSpec)>,
    s: Seq<(Seq<char>, ValueSpec)>,
)
    requires
        keys_unique(acc + s),
    ensures
        upsert_all(acc, s) == acc + s,
    decreases s,
{
    if s.len() == 0 {
        assert(acc + s =~= acc);
    } else {
        let k = s[0].0;
        let v = s[0].1;
        lemma_find_key(acc, k);
        assert(find_key(acc, k) == -1) by {
            if find_key(acc, k) >= 0 {
                let j = find_key(acc, k);
                assert((acc + s)[j].0 == (acc + s)[acc.len() as int].0);
            }
        }
        assert(s[0] == (k, v));
        assert(spec_upsert(acc, k, v) == acc.push(s[0]));
        assert(acc.push(s[0]) + s.drop_first() =~= acc + s);
        lemma_upsert_all_unique_id(acc.push(s[0]), s.drop_first());
    }
}

/// Decoding what a well-formed value encodes, at any position of any buffer
/// that holds the encoding there, returns exactly that value and consumes
/// exactly its encoding.
pub proof fn lemma_decode_encoded(b: Seq<u8>, pos: int, v: ValueSpec)
    requires
        spec_wf(v),
        0 <= pos,
        pos + spec_encode(v).len() <= b.len(),
        b.subrange(pos, pos + spec_encode(v).len() as int) == spec_encode(v),
    ensures
        spec_decode(b, pos, spec_tag_of(v)) == Ok::<(ValueSpec, nat), DecodeError>((
            v,
            spec_encode(v).len(),
        )),
    decreases v,
{
    let e = spec_encode(v);
    match v {
        ValueSpec::Bool(x) => {
            lemma_byte_within(b, pos, e, 0);
        },
        ValueSpec::Int8(x) => {
            lemma_byte_within(b, pos, e, 0);
            assert((x as u8) as i8 == x) by (bit_vector);
        },
        ValueSpec::Uint8(x) => {
            lemma_byte_within(b, pos, e, 0);
        },
        ValueSpec::Int16(x) => {
            lemma_le16_bytes_at(b, pos, x as u16);
            assert((x as u16) as i16 == x) by (bit_vector);
        },
        ValueSpec::Uint16(x) => {
            lemma_le16_bytes_at(b, pos, x);
        },
        ValueSpec::Int32(x) => {
            lemma_le32_bytes_at(b, pos, x as u32);
            assert((x as u32) as i32 == x) by (bit_vector);
        },
        ValueSpec::Uint32(x) => {
            lemma_le32_bytes_at(b, pos, x);
        },
        ValueSpec::Int64(x) => {
            lemma_le64_bytes_at(b, pos, x as u64);
            assert((x as u64) as i64 == x) by (bit_vector);
        },
        ValueSpec::Uint64(x) => {
            lemma_le64_bytes_at(b, pos, x);
        },
        ValueSpec::Float32(bits) => {
            lemma_le32_bytes_at(b, pos, bits);
        },
        ValueSpec::Float64(bits) => {
            lemma_le64_bytes_at(b, pos, bits);
        },
        ValueSpec::Str(s) => {
            lemma_decode_encoded_text(b, pos, s);
        },
        ValueSpec::JsonText(s) => {
            lemma_decode_encoded_text(b, pos, s);
        },
        ValueSpec::Buf(bytes) => {
            assert(e.subrange(0, 4) =~= le32_bytes(bytes.len() as u32));
            lemma_subrange_within(b, pos, e, 0, 4);
            lemma_le32_bytes_at(b, pos, bytes.len() as u32);
            let l = bytes.len() as int;
            assert(e.subrange(4, 4 + l) =~= bytes);
            lemma_subrange_within(b, pos, e, 4, l);
        },
        ValueSpec::Arr(items) => {
            let ei = spec_encode_items(items);
            assert(e.subrange(0, 4) =~= le32_bytes(items.len() as u32));
            lemma_subrange_within(b, pos, e, 0, 4);
            lemma_le32_bytes_at(b, pos, items.len() as u32);
            assert(e.subrange(4, 4 + ei.len() as int) =~= ei);
            lemma_subrange_within(b, pos, e, 4, ei.len() as int);
            lemma_decode_encoded_items(b, pos + 4, items);
        },
        ValueSpec::Obj(entries) => {
            let ee = spec_encode_entries(entries);
            assert(e.subrange(0, 4) =~= le32_bytes(entries.len() as u32));
            lemma_subrange_within(b, pos, e, 0, 4);
            lemma_le32_bytes_at(b, pos, entries.len() as u32);
            assert(e.subrange(4, 4 + ee.len() as int) =~= ee);
            lemma_subrange_within(b, pos, e, 4, ee.len() as int);
            lemma_decode_encoded_entries(b, pos + 4, entries);
            assert(Seq::<(Seq<char>, ValueSpec)>::empty() + entries =~= entries);
            lemma_upsert_all_unique_id(Seq::empty(), entries);
        },
    }
}

/// The string payload cases of `lemma_decode_encoded`: a four-byte length,
/// then the UTF-8 encoding of the characters, decodes back to them.
proof fn lemma_decode_encoded_text(b: Seq<u8>, pos: int, s: Seq<char>)
    requires
        encode_utf8(s).len() < 0x100000000,
        0 <= pos,
        pos + 4 + encode_utf8(s).len() <= b.len(),
        b.subrange(pos, pos + 4 + encode_utf8(s).len() as int) == le32_bytes(
            encode_utf8(s).len() as u32,
        ) + encode_utf8(s),
    ensures
        crate::decode::spec_decode_str_payload(b, pos) == Ok::<(Seq<char>, nat), DecodeError>((
            s,
            (4 + encode_utf8(s).len()) as nat,
        )),
{
    let u = encode_utf8(s);
    let e = le32_bytes(u.len() as u32) + u;
    assert(e.subrange(0, 4) =~= le32_bytes(u.len() as u32));
    lemma_subrange_within(b, pos, e, 0, 4);
    lemma_le32_bytes_at(b, pos, u.len() as u32);
    let l = u.len() as int;
    assert(e.subrange(4, 4 + l) =~= u);
    lemma_subrange_within(b, pos, e, 4, l);
    encode_utf8_valid_utf8(s);
    encode_utf8_decode_utf8(s);
}

/// Decoding what a run of well-formed items encodes returns exactly those
/// items, in order.
pub proof fn lemma_decode_encoded_items(b: Seq<u8>, pos: int, items: Seq<ValueSpec>)
    requires
        forall|i: int| 0 <= i < items.len() ==> spec_wf(#[trigger] items[i]),
        0 <= pos,
        pos + spec_encode_items(items).len() <= b.len(),
        b.subrange(pos, pos + spec_encode_items(items).len() as int) == spec_encode_items(items),
    ensures
        spec_decode_items(b, pos, items.len() as int) == Ok::<
            (Seq<ValueSpec>, nat),
            DecodeError,
        >((items, spec_encode_items(items).len())),
    decreases items,
{
    if items.len() == 0 {
        assert(items =~= Seq::<ValueSpec>::empty());
    } else {
        let v0 = items[0];
        let e0 = spec_encode(v0);
        let tagb = spec_tag_byte(spec_tag_of(v0));
        let rest = spec_encode_items(items.drop_first());
        let e = spec_encode_items(items);
        assert(e == seq![tagb] + e0 + rest);
        lemma_byte_within(b, pos, e, 0);
        assert(e[0] == tagb);
        lemma_tag_byte_from_byte(spec_tag_of(v0));
        assert(e.subrange(1, 1 + e0.len() as int) =~= e0);
        lemma_subrange_within(b, pos, e, 1, e0.len() as int);
        lemma_decode_encoded(b, pos + 1, v0);
        assert(e.subrange(1 + e0.len() as int, e.len() as int) =~= rest);
        lemma_subrange_within(b, pos, e, 1 + e0.len() as int, rest.len() as int);
        assert(forall|i: int| 0 <= i < items.drop_first().len()
            ==> items.drop_first()[i] == items[i + 1]);
        lemma_decode_encoded_items(b, pos + 1 + e0.len() as int, items.drop_first());
        assert(seq![v0] + items.drop_first() =~= items);
    }
}

/// Decoding what a run of well-formed entries encodes returns exactly those
/// raw key/value pairs, in order.
pub proof fn lemma_decode_encoded_entries(
    b: Seq<u8>,
    pos: int,
    entries: Seq<(Seq<char>, ValueSpec)>,
)
    requires
        forall|i: int| 0 <= i < entries.len()
            ==> encode_utf8((#[trigger] entries[i]).0).len() < 0x100000000
                && spec_wf(entries[i].1),
        0 <= pos,
        pos + spec_encode_entries(entries).len() <= b.len(),
        b.subrange(pos, pos + spec_encode_entries(entries).len() as int) == spec_encode_entries(
            entries,
        ),
    ensures
        spec_decode_entries(b, pos, entries.len() as int) == Ok::<
            (Seq<(Seq<char>, ValueSpec)>, nat),
            DecodeError,
        >((entries, spec_encode_entries(entries).len())),
    decreases entries,
{
    if entries.len() == 0 {
        assert(entries =~= Seq::<(Seq<char>, ValueSpec)>::empty());
    } else {
        let k = entries[0].0;
        let v0 = entries[0].1;
        let ku = encode_utf8(k);
        let e0 = spec_encode(v0);
        let tagb = spec_tag_byte(spec_tag_of(v0));
        let rest = spec_encode_entries(entries.drop_first());
        let e = spec_encode_entries(entries);
        assert(e == le32_bytes(ku.len() as u32) + ku + seq![tagb] + e0 + rest);
        let kl = ku.len() as int;
        assert(e.subrange(0, 4) =~= le32_bytes(ku.len() as u32));
        lemma_subrange_within(b, pos, e, 0, 4);
        lemma_le32_bytes_at(b, pos, ku.len() as u32);
        assert(e.subrange(4, 4 + kl) =~= ku);
        lemma_subrange_within(b, pos, e, 4, kl);
        encode_utf8_valid_utf8(k);
        encode_utf8_decode_utf8(k);
        lemma_byte_within(b, pos, e, 4 + kl);
        assert(e[4 + kl] == tagb);
        lemma_tag_byte_from_byte(spec_tag_of(v0));
        assert(e.subrange(4 + kl + 1, 4 + kl + 1 + e0.len() as int) =~= e0);
        lemma_subrange_within(b, pos, e, 4 + kl + 1, e0.len() as int);
        lemma_decode_encoded(b, pos + 4 + kl + 1, v0);
        assert(e.subrange(4 + kl + 1 + e0.len() as int, e.len() as int) =~= rest);
        lemma_subrange_within(b, pos, e, 4 + kl + 1 + e0.len() as int, rest.len() as int);
        assert(forall|i: int| 0 <= i < entries.drop_first().len()
            ==> entries.drop_first()[i] == entries[i + 1]);
        lemma_decode_encoded_entries(b, pos + 4 + kl + 1 + e0.len() as int, entries.drop_first());
        assert(entries[0] == (k, v0));
        assert(seq![(k, v0)] + entries.drop_first() =~= entries);
    }
}

/// Round-trip soundness: a buffer constructed according to the wire grammar
/// from a well-formed value decodes successfully back to that exact value.
pub proof fn lemma_round_trip(v: ValueSpec)
    requires
        spec_wf(v),
        spec_encode(v).len() < 0x100000000,
    ensures
        spec_deserialize(spec_encode_buffer(v)) == Ok::<ValueSpec, DecodeError>(v),
{
    let e = spec_encode(v);
    let b = spec_encode_buffer(v);
    let header = le16_bytes(VALUE_BUFFER_MAGIC) + seq![
        VALUE_BUFFER_VERSION,
        spec_tag_byte(spec_tag_of(v)),
    ] + le32_bytes(e.len() as u32);
    assert(b =~= header + e);
    assert(b.len() == 8 + e.len());
    assert(b.subrange(0, 2) =~= le16_bytes(VALUE_BUFFER_MAGIC));
    lemma_le16_bytes_at(b, 0, VALUE_BUFFER_MAGIC);
    assert(b[2] == VALUE_BUFFER_VERSION);
    assert(b[3] == spec_tag_byte(spec_tag_of(v)));
    lemma_tag_byte_from_byte(spec_tag_of(v));
    assert(b.subrange(4, 8) =~= le32_bytes(e.len() as u32));
    lemma_le32_bytes_at(b, 4, e.len() as u32);
    assert(spec_parse_header(b) == Ok::<BufferHeader, DecodeError>(BufferHeader {
        magic: VALUE_BUFFER_MAGIC,
        version: VALUE_BUFFER_VERSION,
        type_id: spec_tag_of(v),
        size: e.len() as u32,
    }));
    assert(b.subrange(8, 8 + e.len() as int) =~= e);
    lemma_decode_encoded(b, 8, v);
}

} // verus!
