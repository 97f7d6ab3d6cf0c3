//! The decoded value model: an immutable tagged union covering every
//! decodable wire type, and its mathematical view.
//!
//! Floating-point payloads are held as their raw IEEE-754 little-endian bit
//! patterns (`u32` / `u64`), which is exactly what the wire carries; objects
//! are held as an ordered list of key/value entries whose keys are unique,
//! viewed as a map.

use vstd::prelude::*;

verus! {

broadcast use vstd::std_specs::vec::group_vec_axioms;

/// The mathematical model of a decoded value.
///
/// `Float32` and `Float64` carry IEEE-754 bit patterns; `Obj` carries the
/// entry list in insertion order with unique keys (see [`entries_as_map`]
/// for the map it denotes). The invalid and native-pointer wire tags have no
/// variant here: decoding either is a failure, never a value.
pub enum ValueSpec {
    Bool(bool),
    Int8(i8),
    Int16(i16),
    Int32(i32),
    Int64(i64),
    Uint8(u8),
    Uint16(u16),
    Uint32(u32),
    Uint64(u64),
    Float32(u32),
    Float64(u64),
    Str(Seq<char>),
    Buf(Seq<u8>),
    Arr(Seq<ValueSpec>),
    Obj(Seq<(Seq<char>, ValueSpec)>),
    JsonText(Seq<char>),
}

/// A value deserialized from a buffer, fully owned by its root and never
/// mutated once constructed.
#[derive(Debug, PartialEq)]
pub enum Value {
    Bool(bool),
    Int8(i8),
    Int16(i16),
    Int32(i32),
    Int64(i64),
    Uint8(u8),
    Uint16(u16),
    Uint32(u32),
    Uint64(u64),
    /// The IEEE-754 bit pattern of a 32-bit float, as read from the wire.
    Float32(u32),
    /// The IEEE-754 bit pattern of a 64-bit float, as read from the wire.
    Float64(u64),
    String(String),
    Buf(Vec<u8>),
    Array(Vec<Value>),
    Object(ObjectMap),
    /// A string that is semantically JSON text, stored undecoded until
    /// projection.
    JsonString(String),
}

/// A mapping from UTF-8 string keys to values, with unique keys. Inserting
/// an existing key overwrites its value (last write wins).
#[derive(Debug, PartialEq)]
pub struct ObjectMap {
    entries: Vec<(String, Value)>,
}

/// The entry list an `ObjectMap` holds.
pub closed spec fn obj_entry_list(m: ObjectMap) -> Seq<(String, Value)> {
    m.entries@
}

/// The model of one decoded value.
pub open spec fn view_value(v: Value) -> ValueSpec
    decreases v,
{
    match v {
        Value::Bool(b) => ValueSpec::Bool(b),
        Value::Int8(x) => ValueSpec::Int8(x),
        Value::Int16(x) => ValueSpec::Int16(x),
        Value::Int32(x) => ValueSpec::Int32(x),
        Value::Int64(x) => ValueSpec::Int64(x),
        Value::Uint8(x) => ValueSpec::Uint8(x),
        Value::Uint16(x) => ValueSpec::Uint16(x),
        Value::Uint32(x) => ValueSpec::Uint32(x),
        Value::Uint64(x) => ValueSpec::Uint64(x),
        Value::Float32(bits) => ValueSpec::Float32(bits),
        Value::Float64(bits) => ValueSpec::Float64(bits),
        Value::String(s) => ValueSpec::Str(s@),
        Value::Buf(b) => ValueSpec::Buf(b@),
        Value::Array(items) => ValueSpec::Arr(view_values(items@)),
        Value::Object(m) => ValueSpec::Obj(view_entries(obj_entry_list(m))),
        Value::JsonString(s) => ValueSpec::JsonText(s@),
    }
}

/// The models of a sequence of values, in order.
pub open spec fn view_values(s: Seq<Value>) -> Seq<ValueSpec>
    decreases s,
{
    if s.len() == 0 {
        Seq::empty()
    } else {
        seq![view_value(s[0])] + view_values(s.drop_first())
    }
}

/// The models of a sequence of key/value entries, in order.
pub open spec fn view_entries(s: Seq<(String, Value)>) -> Seq<(Seq<char>, ValueSpec)>
    decreases s,
{
    if s.len() == 0 {
        Seq::empty()
    } else {
        seq![(s[0].0@, view_value(s[0].1))] + view_entries(s.drop_first())
    }
}

impl View for Value {
    type V = ValueSpec;

    open spec fn view(&self) -> ValueSpec {
        view_value(*self)
    }
}

impl View for ObjectMap {
    type V = Seq<(Seq<char>, ValueSpec)>;

    open spec fn view(&self) -> Seq<(Seq<char>, ValueSpec)> {
        view_entries(obj_entry_list(*self))
    }
}

/// No two entries share a key.
pub open spec fn keys_unique(s: Seq<(Seq<char>, ValueSpec)>) -> bool {
    forall|i: int, j: int| 0 <= i < j < s.len() ==> s[i].0 != s[j].0
}

/// The index of the first entry with the given key, or -1 if no entry has it.
pub open spec fn find_key(s: Seq<(Seq<char>, ValueSpec)>, k: Seq<char>) -> int
    decreases s,
{
    if s.len() == 0 {
        -1
    } else if s[0].0 == k {
        0
    } else {
        let r = find_key(s.drop_first(), k);
        if r < 0 {
            -1
        } else {
            r + 1
        }
    }
}

/// Entry insertion with last-write-wins: an existing key keeps its position
/// and takes the new value; a new key is appended.
pub open spec fn spec_upsert(
    s: Seq<(Seq<char>, ValueSpec)>,
    k: Seq<char>,
    v: ValueSpec,
) -> Seq<(Seq<char>, ValueSpec)> {
    let j = find_key(s, k);
    if j < 0 {
        s.push((k, v))
    } else {
        s.update(j, (k, v))
    }
}

/// The mapping an entry list denotes: each key maps to the value of its last
/// occurrence.
pub open spec fn entries_as_map(s: Seq<(Seq<char>, ValueSpec)>) -> Map<Seq<char>, ValueSpec>
    decreases s,
{
    if s.len() == 0 {
        Map::empty()
    } else {
        entries_as_map(s.drop_last()).insert(s.last().0, s.last().1)
    }
}

/// What `find_key` finds: the first matching index, with nothing matching
/// before it; or -1, with nothing matching at all.
pub proof fn lemma_find_key(s: Seq<(Seq<char>, ValueSpec)>, k: Seq<char>)
    ensures
        find_key(s, k) == -1 ==> forall|i: int| 0 <= i < s.len() ==> s[i].0 != k,
        find_key(s, k) >= 0 ==> 0 <= find_key(s, k) < s.len() && s[find_key(s, k)].0 == k
            && forall|i: int| 0 <= i < find_key(s, k) ==> s[i].0 != k,
    decreases s,
{
    if s.len() > 0 && s[0].0 != k {
        lemma_find_key(s.drop_first(), k);
        let r = find_key(s.drop_first(), k);
        if r == -1 {
            assert forall|i: int| 0 <= i < s.len() implies s[i].0 != k by {
                if i > 0 {
                    assert(s.drop_first()[i - 1] == s[i]);
                }
            }
        } else {
            assert(s.drop_first()[r] == s[r + 1]);
            assert forall|i: int| 0 <= i < r + 1 implies s[i].0 != k by {
                if i > 0 {
                    assert(s.drop_first()[i - 1] == s[i]);
                }
            }
        }
    }
}

/// Upserting keeps keys unique.
pub proof fn lemma_upsert_keys_unique(s: Seq<(Seq<char>, ValueSpec)>, k: Seq<char>, v: ValueSpec)
    requires
        keys_unique(s),
    ensures
        keys_unique(spec_upsert(s, k, v)),
{
    lemma_find_key(s, k);
    let j = find_key(s, k);
    if j < 0 {
        let t = s.push((k, v));
        assert forall|a: int, b: int| 0 <= a < b < t.len() implies t[a].0 != t[b].0 by {
            if b == s.len() as int {
                assert(t[a] == s[a]);
            } else {
                assert(t[a] == s[a] && t[b] == s[b]);
            }
        }
    } else {
        let t = s.update(j, (k, v));
        assert forall|a: int, b: int| 0 <= a < b < t.len() implies t[a].0 != t[b].0 by {
            assert(a != j ==> t[a] == s[a]);
            assert(b != j ==> t[b] == s[b]);
        }
    }
}

/// In an entry list with unique keys, the map lookup of an entry's key gives
/// that entry's value, and only present keys are in the map.
pub proof fn lemma_entries_as_map(s: Seq<(Seq<char>, ValueSpec)>)
    ensures
        forall|k: Seq<char>| entries_as_map(s).contains_key(k) ==> exists|i: int|
            0 <= i < s.len() && s[i].0 == k,
        keys_unique(s) ==> forall|i: int| 0 <= i < s.len()
            ==> entries_as_map(s).contains_key(#[trigger] s[i].0)
                && entries_as_map(s)[s[i].0] == s[i].1,
    decreases s,
{
    if s.len() > 0 {
        let prefix = s.drop_last();
        lemma_entries_as_map(prefix);
        assert forall|k: Seq<char>| entries_as_map(s).contains_key(k) implies exists|i: int|
            0 <= i < s.len() && s[i].0 == k by {
            if k == s.last().0 {
                assert(s[s.len() - 1].0 == k);
            } else {
                assert(entries_as_map(prefix).contains_key(k));
                let i = choose|i: int| 0 <= i < prefix.len() && prefix[i].0 == k;
                assert(s[i].0 == k);
            }
        }
        if keys_unique(s) {
            assert(forall|i: int, j: int| 0 <= i < j < prefix.len()
                ==> prefix[i].0 != prefix[j].0);
            assert forall|i: int| 0 <= i < s.len() implies
                entries_as_map(s).contains_key(#[trigger] s[i].0)
                    && entries_as_map(s)[s[i].0] == s[i].1 by {
                if i == s.len() - 1 {
                } else {
                    assert(prefix[i] == s[i]);
                    assert(s[i].0 != s.last().0);
                }
            }
        }
    }
}

impl ObjectMap {
    /// The unique-keys invariant every reachable `ObjectMap` satisfies.
    #[verifier::type_invariant]
    pub closed spec fn inv(self) -> bool {
        keys_unique(self@)
    }

    /// An empty mapping.
    pub fn new() -> (r: ObjectMap)
        ensures
            r@ == Seq::<(Seq<char>, ValueSpec)>::empty(),
    {
        ObjectMap { entries: Vec::new() }
    }

    /// The number of entries (and of keys: keys are unique).
    pub fn len(&self) -> (r: usize)
        ensures
            r == self@.len(),
    {
        proof {
            use_type_invariant(self);
            lemma_view_entries_len(self.entries@);
        }
        self.entries.len()
    }

    /// Inserts a key/value pair; an existing key keeps its position and takes
    /// the new value (last write wins), a new key is appended.
    pub fn insert(&mut self, key: String, value: Value)
        ensures
            final(self)@ == spec_upsert(old(self)@, key@, value@),
    {
        proof {
            use_type_invariant(&*self);
            lemma_find_key(self@, key@);
            lemma_upsert_keys_unique(self@, key@, value@);
        }
        let mut entries: Vec<(String, Value)> = Vec::new();
        core::mem::swap(&mut self.entries, &mut entries);
        let ghost orig = entries@;
        proof {
            lemma_view_entries_len(orig);
        }
        let n = entries.len();
        let mut idx: usize = n;
        let mut i: usize = 0;
        while i < n
            invariant
                entries@ == orig,
                n == orig.len(),
                view_entries(orig).len() == orig.len(),
                i <= n,
                idx <= n,
                idx == n ==> forall|j: int| 0 <= j < i ==> view_entries(orig)[j].0 != key@,
                idx < n ==> idx < i && view_entries(orig)[idx as int].0 == key@
                    && forall|j: int| 0 <= j < idx ==> view_entries(orig)[j].0 != key@,
            decreases n - i,
        {
            proof {
                lemma_view_entries_index(orig, i as int);
            }
            if idx == n && entries[i].0 == key {
                idx = i;
            }
            i += 1;
        }
        proof {
            lemma_find_key(view_entries(orig), key@);
        }
        if idx < n {
            proof {
                lemma_view_entries_update(orig, idx as int, key@, value@);
                assert(find_key(view_entries(orig), key@) == idx as int);
            }
            entries.set(idx, (key, value));
        } else {
            proof {
                lemma_view_entries_push(orig, key@, value@);
                assert(find_key(view_entries(orig), key@) == -1);
            }
            entries.push((key, value));
        }
        core::mem::swap(&mut self.entries, &mut entries);
    }

    /// Looks a key up in the mapping the entries denote.
    pub fn get<'a>(&'a self, key: &str) -> (r: Option<&'a Value>)
        ensures
            match r {
                Some(v) => entries_as_map(self@).contains_key(key@)
                    && v@ == entries_as_map(self@)[key@],
                None => !entries_as_map(self@).contains_key(key@),
            },
    {
        let n = self.entries.len();
        proof {
            lemma_view_entries_len(self.entries@);
        }
        let mut i: usize = 0;
        while i < n
            invariant
                i <= n,
                n == self.entries@.len(),
                view_entries(self.entries@).len() == n,
                forall|j: int| 0 <= j < i ==> view_entries(self.entries@)[j].0 != key@,
            decreases n - i,
        {
            proof {
                lemma_view_entries_index(self.entries@, i as int);
            }
            if crate::trusted::str_eq(self.entries[i].0.as_str(), key) {
                proof {
                    use_type_invariant(self);
                    lemma_entries_as_map(self@);
                }
                return Some(&self.entries[i].1);
            }
            i += 1;
        }
        proof {
            lemma_entries_as_map(self@);
            if entries_as_map(self@).contains_key(key@) {
                let j = choose|j: int| 0 <= j < self@.len() && self@[j].0 == key@;
            }
        }
        None
    }

    /// The entries in insertion order, for callers that walk the mapping.
    pub fn entries(&self) -> (r: &Vec<(String, Value)>)
        ensures
            r@ == obj_entry_list(*self),
            view_entries(r@) == self@,
            keys_unique(self@),
    {
        proof {
            use_type_invariant(self);
        }
        &self.entries
    }
}

/// `view_entries` keeps the length.
pub proof fn lemma_view_entries_len(s: Seq<(String, Value)>)
    ensures
        view_entries(s).len() == s.len(),
    decreases s,
{
    if s.len() > 0 {
        lemma_view_entries_len(s.drop_first());
    }
}

/// `view_entries` maps each entry in place.
pub proof fn lemma_view_entries_index(s: Seq<(String, Value)>, i: int)
    requires
        0 <= i < s.len(),
    ensures
        view_entries(s).len() == s.len(),
        view_entries(s)[i] == (s[i].0@, view_value(s[i].1)),
    decreases s,
{
    lemma_view_entries_len(s);
    if i > 0 {
        lemma_view_entries_index(s.drop_first(), i - 1);
    }
}

/// Viewing after a push appends the pushed entry's view.
pub proof fn lemma_view_entries_push(s: Seq<(String, Value)>, k: Seq<char>, v: ValueSpec)
    ensures
        forall|key: String, val: Value| key@ == k && val@ == v
            ==> view_entries(s.push((key, val))) =~= view_entries(s).push((k, v)),
{
    assert forall|key: String, val: Value| key@ == k && val@ == v
        implies view_entries(s.push((key, val))) =~= view_entries(s).push((k, v)) by {
        let t = s.push((key, val));
        lemma_view_entries_len(s);
        lemma_view_entries_len(t);
        assert forall|i: int| 0 <= i < t.len() implies view_entries(t)[i]
            == view_entries(s).push((k, v))[i] by {
            lemma_view_entries_index(t, i);
            if i < s.len() {
                lemma_view_entries_index(s, i);
                assert(t[i] == s[i]);
            }
        }
    }
}

/// Viewing after an update updates the entry's view in place.
pub proof fn lemma_view_entries_update(s: Seq<(String, Value)>, j: int, k: Seq<char>, v: ValueSpec)
    requires
        0 <= j < s.len(),
    ensures
        forall|key: String, val: Value| key@ == k && val@ == v
            ==> view_entries(s.update(j, (key, val))) =~= view_entries(s).update(j, (k, v)),
{
    assert forall|key: String, val: Value| key@ == k && val@ == v
        implies view_entries(s.update(j, (key, val))) =~= view_entries(s).update(j, (k, v)) by {
        let t = s.update(j, (key, val));
        lemma_view_entries_len(s);
        lemma_view_entries_len(t);
        assert forall|i: int| 0 <= i < t.len() implies view_entries(t)[i]
            == view_entries(s).update(j, (k, v))[i] by {
            lemma_view_entries_index(t, i);
            if i != j {
                lemma_view_entries_index(s, i);
                assert(t[i] == s[i]);
            }
        }
    }
}

/// The entry list sits structurally inside its map: recursion over an
/// object's values may descend through it.
pub proof fn lemma_obj_entry_list_decreases(m: ObjectMap)
    ensures
        decreases_to!(m => obj_entry_list(m)),
{
    assert(decreases_to!(m => m.entries));
}

/// Folding a list of key/value pairs into an entry list, inserting each in
/// order with last-write-wins.
pub open spec fn upsert_all(
    acc: Seq<(Seq<char>, ValueSpec)>,
    s: Seq<(Seq<char>, ValueSpec)>,
) -> Seq<(Seq<char>, ValueSpec)>
    decreases s,
{
    if s.len() == 0 {
        acc
    } else {
        upsert_all(spec_upsert(acc, s[0].0, s[0].1), s.drop_first())
    }
}

/// Folding one more pair is one more upsert.
pub proof fn lemma_upsert_all_push(
    acc: Seq<(Seq<char>, ValueSpec)>,
    s: Seq<(Seq<char>, ValueSpec)>,
    k: Seq<char>,
    v: ValueSpec,
)
    ensures
        upsert_all(acc, s.push((k, v))) == spec_upsert(upsert_all(acc, s), k, v),
    decreases s,
{
    let t = s.push((k, v));
    assert(t[0] == if s.len() == 0 { (k, v) } else { s[0] });
    if s.len() == 0 {
        assert(t.drop_first() =~= Seq::<(Seq<char>, ValueSpec)>::empty());
        assert(upsert_all(spec_upsert(acc, k, v), t.drop_first()) == spec_upsert(acc, k, v));
    } else {
        assert(t[0] == s[0]);
        assert(t.drop_first() =~= s.drop_first().push((k, v)));
        lemma_upsert_all_push(spec_upsert(acc, s[0].0, s[0].1), s.drop_first(), k, v);
    }
}

/// Folding keeps keys unique.
pub proof fn lemma_upsert_all_keys_unique(
    acc: Seq<(Seq<char>, ValueSpec)>,
    s: Seq<(Seq<char>, ValueSpec)>,
)
    requires
        keys_unique(acc),
    ensures
        keys_unique(upsert_all(acc, s)),
    decreases s,
{
    if s.len() > 0 {
        lemma_upsert_keys_unique(acc, s[0].0, s[0].1);
        lemma_upsert_all_keys_unique(spec_upsert(acc, s[0].0, s[0].1), s.drop_first());
    }
}

/// Upserting a key makes the map give its new value, and leaves every other
/// key's presence and value alone.
pub proof fn lemma_upsert_lookup(s: Seq<(Seq<char>, ValueSpec)>, k: Seq<char>, v: ValueSpec)
    requires
        keys_unique(s),
    ensures
        entries_as_map(spec_upsert(s, k, v)).contains_key(k),
        entries_as_map(spec_upsert(s, k, v))[k] == v,
        forall|k2: Seq<char>| k2 != k ==> entries_as_map(spec_upsert(s, k, v)).contains_key(k2)
            == entries_as_map(s).contains_key(k2),
        forall|k2: Seq<char>| k2 != k && entries_as_map(s).contains_key(k2)
            ==> entries_as_map(spec_upsert(s, k, v))[k2] == entries_as_map(s)[k2],
{
    lemma_find_key(s, k);
    lemma_upsert_keys_unique(s, k, v);
    let t = spec_upsert(s, k, v);
    lemma_entries_as_map(s);
    lemma_entries_as_map(t);
    let j = find_key(s, k);
    if j < 0 {
        assert(t[s.len() as int] == (k, v));
    } else {
        assert(t[j] == (k, v));
    }
    assert forall|k2: Seq<char>| k2 != k implies entries_as_map(t).contains_key(k2)
        == entries_as_map(s).contains_key(k2) by {
        if entries_as_map(t).contains_key(k2) {
            let i = choose|i: int| 0 <= i < t.len() && t[i].0 == k2;
            assert(i != j && i < s.len());
            assert(s[i] == t[i]);
        }
        if entries_as_map(s).contains_key(k2) {
            let i = choose|i: int| 0 <= i < s.len() && s[i].0 == k2;
            assert(i != j);
            assert(t[i] == s[i]);
        }
    }
    assert forall|k2: Seq<char>| k2 != k && entries_as_map(s).contains_key(k2)
        implies entries_as_map(t)[k2] == entries_as_map(s)[k2] by {
        let i = choose|i: int| 0 <= i < s.len() && s[i].0 == k2;
        assert(i != j);
        assert(t[i] == s[i]);
    }
}

/// Last write wins: when an object's wire encoding repeats a key, the
/// decoded mapping holds the value of that key's last occurrence. (The
/// decoder folds the raw wire entries with `upsert_all`, so its object maps
/// are exactly of this shape.)
pub proof fn lemma_object_last_write_wins(entries: Seq<(Seq<char>, ValueSpec)>, i: int)
    requires
        0 <= i < entries.len(),
        forall|j: int| i < j < entries.len() ==> entries[j].0 != entries[i].0,
    ensures
        entries_as_map(upsert_all(Seq::empty(), entries)).contains_key(entries[i].0),
        entries_as_map(upsert_all(Seq::empty(), entries))[entries[i].0] == entries[i].1,
    decreases entries.len(),
{
    let prefix = entries.drop_last();
    let e = entries.last();
    assert(entries =~= prefix.push((e.0, e.1)));
    lemma_upsert_all_push(Seq::empty(), prefix, e.0, e.1);
    let u = upsert_all(Seq::empty(), prefix);
    lemma_upsert_all_keys_unique(Seq::empty(), prefix);
    lemma_upsert_lookup(u, e.0, e.1);
    if i == entries.len() - 1 {
    } else {
        assert(prefix[i] == entries[i]);
        assert(forall|j: int| i < j < prefix.len() ==> prefix[j].0 != prefix[i].0);
        lemma_object_last_write_wins(prefix, i);
        assert(e.0 != entries[i].0);
    }
}

/// Viewing after a push appends the pushed value's view.
pub proof fn lemma_view_values_push(s: Seq<Value>, v: Value)
    ensures
        view_values(s.push(v)) == view_values(s).push(view_value(v)),
{
    let t = s.push(v);
    lemma_view_values_len(s);
    lemma_view_values_len(t);
    assert forall|i: int| 0 <= i < t.len() implies view_values(t)[i]
        == view_values(s).push(view_value(v))[i] by {
        lemma_view_values_index(t, i);
        if i < s.len() {
            lemma_view_values_index(s, i);
            assert(t[i] == s[i]);
        }
    }
    assert(view_values(t) =~= view_values(s).push(view_value(v)));
}

/// `view_values` keeps the length and maps each element in place.
pub proof fn lemma_view_values_index(s: Seq<Value>, i: int)
    requires
        0 <= i < s.len(),
    ensures
        view_values(s).len() == s.len(),
        view_values(s)[i] == view_value(s[i]),
    decreases s,
{
    lemma_view_values_len(s);
    if i > 0 {
        lemma_view_values_index(s.drop_first(), i - 1);
    }
}

/// `view_values` keeps the length.
pub proof fn lemma_view_values_len(s: Seq<Value>)
    ensures
        view_values(s).len() == s.len(),
    decreases s,
{
    if s.len() > 0 {
        lemma_view_values_len(s.drop_first());
    }
}

impl Value {
    /// Whether this value is an object.
    pub fn is_object(&self) -> (r: bool)
        ensures
            r == (self@ matches ValueSpec::Obj(_)),
    {
        matches!(self, Value::Object(_))
    }

    /// The object entries, if this value is an object.
    pub fn as_object(&self) -> (r: Option<&ObjectMap>)
        ensures
            match r {
                Some(m) => self@ == ValueSpec::Obj(m@),
                None => !(self@ matches ValueSpec::Obj(_)),
            },
    {
        match self {
            Value::Object(obj) => Some(obj),
            _ => None,
        }
    }
}

} // verus!
