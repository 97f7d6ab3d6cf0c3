//! The lossy-but-defined projection of a decoded value tree into a generic
//! JSON tree. The projection is pure and total: the two lossy cases are
//! documented substitutions, not failures.
//!
//! Floating-point numbers are carried as finite IEEE-754 bit patterns (a
//! non-finite payload projects to null); a `JsonText` node stands for JSON
//! text whose parsed tree is substituted when the tree is rendered.

use vstd::prelude::*;
use crate::trusted::is_json_text;
use crate::value::{
    Value, ValueSpec, view_value, view_values, view_entries, obj_entry_list,
    lemma_obj_entry_list_decreases, lemma_view_values_index, lemma_view_entries_index,
    lemma_view_entries_len,
};

verus! {

broadcast use vstd::std_specs::vec::group_vec_axioms;

/// The mathematical model of a projected JSON tree.
pub enum JsonSpec {
    Null,
    Bool(bool),
    IntNum(i64),
    UintNum(u64),
    Float32Num(u32),
    Float64Num(u64),
    Str(Seq<char>),
    Arr(Seq<JsonSpec>),
    Obj(Seq<(Seq<char>, JsonSpec)>),
    JsonText(Seq<char>),
}

/// A generic JSON tree, the projection of a decoded value.
#[derive(Debug, PartialEq)]
pub enum JsonValue {
    Null,
    Bool(bool),
    /// A number from one of the signed integer payloads, widened to 64 bits.
    IntNum(i64),
    /// A number from one of the unsigned integer payloads, widened to 64 bits.
    UintNum(u64),
    /// A number: the bit pattern of a finite 32-bit float.
    Float32Num(u32),
    /// A number: the bit pattern of a finite 64-bit float.
    Float64Num(u64),
    Str(String),
    Arr(Vec<JsonValue>),
    Obj(Vec<(String, JsonValue)>),
    /// One well-formed JSON document as text; rendering substitutes its
    /// parsed tree for this node.
    JsonText(String),
}

/// The model of one projected JSON tree.
pub open spec fn view_json(j: JsonValue) -> JsonSpec
    decreases j,
{
    match j {
        JsonValue::Null => JsonSpec::Null,
        JsonValue::Bool(b) => JsonSpec::Bool(b),
        JsonValue::IntNum(x) => JsonSpec::IntNum(x),
        JsonValue::UintNum(x) => JsonSpec::UintNum(x),
        JsonValue::Float32Num(bits) => JsonSpec::Float32Num(bits),
        JsonValue::Float64Num(bits) => JsonSpec::Float64Num(bits),
        JsonValue::Str(s) => JsonSpec::Str(s@),
        JsonValue::Arr(items) => JsonSpec::Arr(view_json_seq(items@)),
        JsonValue::Obj(entries) => JsonSpec::Obj(view_json_entries(entries@)),
        JsonValue::JsonText(s) => JsonSpec::JsonText(s@),
    }
}

/// The models of a sequence of JSON trees, in order.
pub open spec fn view_json_seq(s: Seq<JsonValue>) -> Seq<JsonSpec>
    decreases s,
{
    if s.len() == 0 {
        Seq::empty()
    } else {
        seq![view_json(s[0])] + view_json_seq(s.drop_first())
    }
}

/// The models of a sequence of JSON key/value entries, in order.
pub open spec fn view_json_entries(s: Seq<(String, JsonValue)>) -> Seq<(Seq<char>, JsonSpec)>
    decreases s,
{
    if s.len() == 0 {
        Seq::empty()
    } else {
        seq![(s[0].0@, view_json(s[0].1))] + view_json_entries(s.drop_first())
    }
}

impl View for JsonValue {
    type V = JsonSpec;

    open spec fn view(&self) -> JsonSpec {
        view_json(*self)
    }
}

/// Whether a 32-bit IEEE-754 bit pattern is a finite number (its exponent
/// bits are not all ones).
pub open spec fn f32_bits_finite(bits: u32) -> bool {
    (bits >> 23u32) & 0xff != 0xff
}

/// Whether a 64-bit IEEE-754 bit pattern is a finite number.
pub open spec fn f64_bits_finite(bits: u64) -> bool {
    (bits >> 52u64) & 0x7ff != 0x7ff
}

/// What projecting one value yields, clause by clause: booleans and strings
/// go over unchanged; signed and unsigned integers widen to 64 bits; a
/// finite float stays a number and a non-finite one becomes null; an opaque
/// byte buffer becomes an array of its byte values; arrays and objects
/// recurse; JSON text that parses stands as a substituted document, and
/// JSON text that does not parse falls back to a plain string.
pub open spec fn spec_to_json(v: ValueSpec) -> JsonSpec
    decreases v,
{
    match v {
        ValueSpec::Bool(b) => JsonSpec::Bool(b),
        ValueSpec::Int8(x) => JsonSpec::IntNum(x as i64),
        ValueSpec::Int16(x) => JsonSpec::IntNum(x as i64),
        ValueSpec::Int32(x) => JsonSpec::IntNum(x as i64),
        ValueSpec::Int64(x) => JsonSpec::IntNum(x),
        ValueSpec::Uint8(x) => JsonSpec::UintNum(x as u64),
        ValueSpec::Uint16(x) => JsonSpec::UintNum(x as u64),
        ValueSpec::Uint32(x) => JsonSpec::UintNum(x as u64),
        ValueSpec::Uint64(x) => JsonSpec::UintNum(x),
        ValueSpec::Float32(bits) => if f32_bits_finite(bits) {
            JsonSpec::Float32Num(bits)
        } else {
            JsonSpec::Null
        },
        ValueSpec::Float64(bits) => if f64_bits_finite(bits) {
            JsonSpec::Float64Num(bits)
        } else {
            JsonSpec::Null
        },
        ValueSpec::Str(s) => JsonSpec::Str(s),
        ValueSpec::Buf(bytes) => JsonSpec::Arr(
            Seq::new(bytes.len(), |i: int| JsonSpec::UintNum(bytes[i] as u64)),
        ),
        ValueSpec::Arr(items) => JsonSpec::Arr(spec_to_json_seq(items)),
        ValueSpec::Obj(entries) => JsonSpec::Obj(spec_to_json_entries(entries)),
        ValueSpec::JsonText(s) => if is_json_text(s) {
            JsonSpec::JsonText(s)
        } else {
            JsonSpec::Str(s)
        },
    }
}

/// The projections of a sequence of values, in order.
pub open spec fn spec_to_json_seq(s: Seq<ValueSpec>) -> Seq<JsonSpec>
    decreases s,
{
    if s.len() == 0 {
        Seq::empty()
    } else {
        seq![spec_to_json(s[0])] + spec_to_json_seq(s.drop_first())
    }
}

/// The projections of a sequence of entries, in order and key for key.
pub open spec fn spec_to_json_entries(s: Seq<(Seq<char>, ValueSpec)>) -> Seq<(Seq<char>, JsonSpec)>
    decreases s,
{
    if s.len() == 0 {
        Seq::empty()
    } else {
        seq![(s[0].0, spec_to_json(s[0].1))] + spec_to_json_entries(s.drop_first())
    }
}

/// `spec_to_json_seq` keeps the length and projects each element in place.
pub proof fn lemma_spec_to_json_seq_index(s: Seq<ValueSpec>, i: int)
    requires
        0 <= i < s.len(),
    ensures
        spec_to_json_seq(s).len() == s.len(),
        spec_to_json_seq(s)[i] == spec_to_json(s[i]),
    decreases s,
{
    lemma_spec_to_json_seq_len(s);
    if i > 0 {
        lemma_spec_to_json_seq_index(s.drop_first(), i - 1);
    }
}

/// `spec_to_json_seq` keeps the length.
pub proof fn lemma_spec_to_json_seq_len(s: Seq<ValueSpec>)
    ensures
        spec_to_json_seq(s).len() == s.len(),
    decreases s,
{
    if s.len() > 0 {
        lemma_spec_to_json_seq_len(s.drop_first());
    }
}

/// `spec_to_json_entries` keeps the length and projects each entry in place.
pub proof fn lemma_spec_to_json_entries_index(s: Seq<(Seq<char>, ValueSpec)>, i: int)
    requires
        0 <= i < s.len(),
    ensures
        spec_to_json_entries(s).len() == s.len(),
        spec_to_json_entries(s)[i] == (s[i].0, spec_to_json(s[i].1)),
    decreases s,
{
    lemma_spec_to_json_entries_len(s);
    if i > 0 {
        lemma_spec_to_json_entries_index(s.drop_first(), i - 1);
    }
}

/// `spec_to_json_entries` keeps the length.
pub proof fn lemma_spec_to_json_entries_len(s: Seq<(Seq<char>, ValueSpec)>)
    ensures
        spec_to_json_entries(s).len() == s.len(),
    decreases s,
{
    if s.len() > 0 {
        lemma_spec_to_json_entries_len(s.drop_first());
    }
}

/// `view_json_seq` keeps the length and maps each element in place.
pub proof fn lemma_view_json_seq_index(s: Seq<JsonValue>, i: int)
    requires
        0 <= i < s.len(),
    ensures
        view_json_seq(s).len() == s.len(),
        view_json_seq(s)[i] == view_json(s[i]),
    decreases s,
{
    lemma_view_json_seq_len(s);
    if i > 0 {
        lemma_view_json_seq_index(s.drop_first(), i - 1);
    }
}

/// `view_json_seq` keeps the length.
pub proof fn lemma_view_json_seq_len(s: Seq<JsonValue>)
    ensures
        view_json_seq(s).len() == s.len(),
    decreases s,
{
    if s.len() > 0 {
        lemma_view_json_seq_len(s.drop_first());
    }
}

/// `view_json_entries` keeps the length and maps each entry in place.
pub proof fn lemma_view_json_entries_index(s: Seq<(String, JsonValue)>, i: int)
    requires
        0 <= i < s.len(),
    ensures
        view_json_entries(s).len() == s.len(),
        view_json_entries(s)[i] == (s[i].0@, view_json(s[i].1)),
    decreases s,
{
    lemma_view_json_entries_len(s);
    if i > 0 {
        lemma_view_json_entries_index(s.drop_first(), i - 1);
    }
}

/// `view_json_entries` keeps the length.
pub proof fn lemma_view_json_entries_len(s: Seq<(String, JsonValue)>)
    ensures
        view_json_entries(s).len() == s.len(),
    decreases s,
{
    if s.len() > 0 {
        lemma_view_json_entries_len(s.drop_first());
    }
}

/// A non-finite 64-bit float payload (NaN or an infinity) projects to JSON
/// null: a deliberate, documented, lossy rule, not a failure.
pub proof fn lemma_nonfinite_float64_projects_null(bits: u64)
    requires
        !f64_bits_finite(bits),
    ensures
        spec_to_json(ValueSpec::Float64(bits)) == JsonSpec::Null,
{
}

/// A non-finite 32-bit float payload projects to JSON null.
pub proof fn lemma_nonfinite_float32_projects_null(bits: u32)
    requires
        !f32_bits_finite(bits),
    ensures
        spec_to_json(ValueSpec::Float32(bits)) == JsonSpec::Null,
{
}

/// JSON text that parses projects as a substituted document, never as a
/// string literal; JSON text that does not parse falls back to a string.
pub proof fn lemma_json_text_projection(s: Seq<char>)
    ensures
        is_json_text(s) ==> spec_to_json(ValueSpec::JsonText(s)) == JsonSpec::JsonText(s),
        !is_json_text(s) ==> spec_to_json(ValueSpec::JsonText(s)) == JsonSpec::Str(s),
{
}

impl Value {
    /// Projects this value to a generic JSON tree: pure, total, never fails.
    #[verifier::loop_isolation(false)]
    pub fn to_json(&self) -> (r: JsonValue)
        ensures
            r@ == spec_to_json(self@),
        decreases *self,
    {
        match self {
            Value::Bool(x) => JsonValue::Bool(*x),
            Value::Int8(x) => JsonValue::IntNum(*x as i64),
            Value::Int16(x) => JsonValue::IntNum(*x as i64),
            Value::Int32(x) => JsonValue::IntNum(*x as i64),
            Value::Int64(x) => JsonValue::IntNum(*x),
            Value::Uint8(x) => JsonValue::UintNum(*x as u64),
            Value::Uint16(x) => JsonValue::UintNum(*x as u64),
            Value::Uint32(x) => JsonValue::UintNum(*x as u64),
            Value::Uint64(x) => JsonValue::UintNum(*x),
            Value::Float32(bits) => {
                if (*bits >> 23u32) & 0xff != 0xff {
                    JsonValue::Float32Num(*bits)
                } else {
                    JsonValue::Null
                }
            },
            Value::Float64(bits) => {
                if (*bits >> 52u64) & 0x7ff != 0x7ff {
                    JsonValue::Float64Num(*bits)
                } else {
                    JsonValue::Null
                }
            },
            Value::String(s) => JsonValue::Str(clone_string(s)),
            Value::Buf(bytes) => {
                let n = bytes.len();
                let mut out: Vec<JsonValue> = Vec::new();
                let mut i: usize = 0;
                while i < n
                    invariant
                        n == bytes@.len(),
                        i <= n,
                        out@.len() == i,
                        forall|j: int| 0 <= j < i ==> out@[j]
                            == JsonValue::UintNum(bytes@[j] as u64),
                    decreases n - i,
                {
                    out.push(JsonValue::UintNum(bytes[i] as u64));
                    i += 1;
                }
                proof {
                    assert forall|j: int| 0 <= j < n implies view_json_seq(out@)[j]
                        == JsonSpec::UintNum(bytes@[j] as u64) by {
                        lemma_view_json_seq_index(out@, j);
                    }
                    lemma_view_json_seq_len(out@);
                    assert(view_json_seq(out@) =~= Seq::new(
                        bytes@.len(),
                        |i: int| JsonSpec::UintNum(bytes@[i] as u64),
                    ));
                }
                JsonValue::Arr(out)
            },
            Value::Array(items) => {
                let n = items.len();
                let mut out: Vec<JsonValue> = Vec::new();
                let mut i: usize = 0;
                while i < n
                    invariant
                        n == items@.len(),
                        i <= n,
                        out@.len() == i,
                        forall|j: int| 0 <= j < i ==> view_json(#[trigger] out@[j])
                            == spec_to_json(view_value(items@[j])),
                    decreases n - i,
                {
                    let jv = items[i].to_json();
                    out.push(jv);
                    i += 1;
                }
                proof {
                    assert forall|j: int| 0 <= j < n implies view_json_seq(out@)[j]
                        == spec_to_json_seq(view_values(items@))[j] by {
                        lemma_view_json_seq_index(out@, j);
                        lemma_view_values_index(items@, j);
                        lemma_spec_to_json_seq_index(view_values(items@), j);
                    }
                    lemma_view_json_seq_len(out@);
                    lemma_spec_to_json_seq_len(view_values(items@));
                    crate::value::lemma_view_values_len(items@);
                    assert(view_json_seq(out@) =~= spec_to_json_seq(view_values(items@)));
                }
                JsonValue::Arr(out)
            },
            Value::Object(m) => {
                proof {
                    lemma_obj_entry_list_decreases(*m);
                }
                let ents = m.entries();
                let n = ents.len();
                let mut out: Vec<(String, JsonValue)> = Vec::new();
                let mut i: usize = 0;
                while i < n
                    invariant
                        n == ents@.len(),
                        ents@ == obj_entry_list(*m),
                        i <= n,
                        out@.len() == i,
                        forall|j: int| 0 <= j < i ==> (#[trigger] out@[j]).0@ == ents@[j].0@
                            && view_json(out@[j].1) == spec_to_json(view_value(ents@[j].1)),
                    decreases n - i,
                {
                    let key = clone_string(&ents[i].0);
                    let jv = ents[i].1.to_json();
                    out.push((key, jv));
                    i += 1;
                }
                proof {
                    assert forall|j: int| 0 <= j < n implies view_json_entries(out@)[j]
                        == spec_to_json_entries(view_entries(ents@))[j] by {
                        lemma_view_json_entries_index(out@, j);
                        lemma_view_entries_index(ents@, j);
                        lemma_spec_to_json_entries_index(view_entries(ents@), j);
                    }
                    lemma_view_json_entries_len(out@);
                    lemma_spec_to_json_entries_len(view_entries(ents@));
                    lemma_view_entries_len(ents@);
                    assert(view_json_entries(out@) =~= spec_to_json_entries(view_entries(ents@)));
                }
                JsonValue::Obj(out)
            },
            Value::JsonString(s) => {
                if crate::trusted::json_text_is_valid(s.as_str()) {
                    JsonValue::JsonText(clone_string(s))
                } else {
                    JsonValue::Str(clone_string(s))
                }
            },
        }
    }
}

/// A copy of a string with the same characters.
fn clone_string(s: &String) -> (r: String)
    ensures
        r@ == s@,
{
    s.clone()
}

} // verus!
