//! How much memory a value takes, counted the way the interpreter counts it for JSON values.
use vstd::prelude::*;
use vstd::layout::size_of;
use vstd::utf8::encode_utf8;

verus! {

/// The JSON value type of `serde_json`, whose size in memory the counting starts from.
#[verifier::external_type_specification]
#[verifier::external_body]
pub struct ExJsonValue(serde_json::Value);

/// The JSON object type of `serde_json`.
#[verifier::external_type_specification]
#[verifier::external_body]
#[verifier::reject_recursive_types(K)]
#[verifier::reject_recursive_types(V)]
pub struct ExJsonMap<K, V>(serde_json::Map<K, V>);

/// Something whose size in memory can be counted.
pub trait Size {
    /// The count fits in a `usize`.
    spec fn size_fits(&self) -> bool;

    /// The size in bytes.
    fn size(&self) -> usize
        requires
            self.size_fits(),
    ;
}

/// A JSON number as `serde_json` holds it: a whole number from zero up, one below zero, or a
/// floating-point number, kept as the text it is written with.
pub enum JsonNumber {
    PosInt(u64),
    NegInt(i64),
    Float(String),
}

/// A JSON value, with the members of an object in order.
pub enum JsonValue {
    Null,
    Bool(bool),
    Number(JsonNumber),
    String(String),
    Array(Vec<JsonValue>),
    Object(Vec<(String, JsonValue)>),
}

/// The number of bytes of the UTF-8 text of `s`.
pub open spec fn text_bytes(s: String) -> int {
    encode_utf8(s@).len() as int
}

/// The size of a JSON value: nothing for `null`, the size of a `bool` for a truth value, eight
/// bytes for a number (an `i64`, a `u64` or a 64-bit float, whichever holds it), the size of a `String` and the bytes of its text for a string, and the size of the
/// container plus what its items (and keys) take for an array or an object.
pub open spec fn json_size(v: JsonValue) -> int
    decreases v, 0int,
{
    match v {
        JsonValue::Null => 0,
        JsonValue::Bool(_) => size_of::<bool>() as int,
        JsonValue::Number(_) => 8,
        JsonValue::String(s) => size_of::<String>() + text_bytes(s),
        JsonValue::Array(vs) => size_of::<Vec<serde_json::Value>>() + items_size(vs@, vs@.len() as int),
        JsonValue::Object(ms) => size_of::<serde_json::Map<String, serde_json::Value>>()
            + members_size(ms@, ms@.len() as int),
    }
}

/// What the items `vs[0..n]` take.
pub open spec fn items_size(vs: Seq<JsonValue>, n: int) -> int
    decreases vs, n,
{
    if n <= 0 || n > vs.len() {
        0
    } else {
        items_size(vs, n - 1) + json_size(vs[n - 1])
    }
}

/// What the members `ms[0..n]` take: the bytes of each key and the size of each value.
pub open spec fn members_size(ms: Seq<(String, JsonValue)>, n: int) -> int
    decreases ms, n,
{
    if n <= 0 || n > ms.len() {
        0
    } else {
        members_size(ms, n - 1) + text_bytes(ms[n - 1].0) + json_size(ms[n - 1].1)
    }
}

proof fn lemma_items_nonneg(vs: Seq<JsonValue>, n: int)
    ensures
        items_size(vs, n) >= 0,
    decreases vs, n,
{
    if 0 < n <= vs.len() {
        lemma_items_nonneg(vs, n - 1);
        lemma_json_nonneg(vs[n - 1]);
    }
}

proof fn lemma_members_nonneg(ms: Seq<(String, JsonValue)>, n: int)
    ensures
        members_size(ms, n) >= 0,
    decreases ms, n,
{
    if 0 < n <= ms.len() {
        lemma_members_nonneg(ms, n - 1);
        lemma_json_nonneg(ms[n - 1].1);
    }
}

proof fn lemma_json_nonneg(v: JsonValue)
    ensures
        json_size(v) >= 0,
    decreases v, 1int,
{
    match v {
        JsonValue::Array(vs) => lemma_items_nonneg(vs@, vs@.len() as int),
        JsonValue::Object(ms) => lemma_members_nonneg(ms@, ms@.len() as int),
        _ => {},
    }
}

impl Size for JsonValue {
    open spec fn size_fits(&self) -> bool {
        json_size(*self) <= usize::MAX
    }

    fn size(&self) -> (r: usize)
        ensures
            r == json_size(*self),
        decreases self, 0int,
    {
        match self {
            JsonValue::Null => 0,
            JsonValue::Bool(_) => core::mem::size_of::<bool>(),
            JsonValue::Number(_) => 8,
            JsonValue::String(s) => core::mem::size_of::<String>() + s.as_str().len(),
            JsonValue::Array(vs) => {
                let mut total: usize = core::mem::size_of::<Vec<serde_json::Value>>();
                let mut k: usize = 0;
                while k < vs.len()
                    invariant
                        k <= vs.len(),
                        json_size(*self) <= usize::MAX,
                        *self == JsonValue::Array(*vs),
                        total == size_of::<Vec<serde_json::Value>>() + items_size(vs@, k as int),
                    decreases vs.len() - k,
                {
                    proof {
                        lemma_items_grow(vs@, k as int + 1, vs@.len() as int);
                        lemma_json_nonneg(vs@[k as int]);
                        lemma_items_nonneg(vs@, k as int);
                    }
                    let item = vs[k].size_checked();
                    total = total + item;
                    k += 1;
                }
                total
            },
            JsonValue::Object(ms) => {
                let mut total: usize = core::mem::size_of::<serde_json::Map<String, serde_json::Value>>();
                let mut k: usize = 0;
                while k < ms.len()
                    invariant
                        k <= ms.len(),
                        json_size(*self) <= usize::MAX,
                        *self == JsonValue::Object(*ms),
                        total == size_of::<serde_json::Map<String, serde_json::Value>>()
                            + members_size(ms@, k as int),
                    decreases ms.len() - k,
                {
                    proof {
                        lemma_members_grow(ms@, k as int + 1, ms@.len() as int);
                        lemma_json_nonneg(ms@[k as int].1);
                        lemma_members_nonneg(ms@, k as int);
                    }
                    let key = ms[k].0.as_str().len();
                    let item = ms[k].1.size_checked();
                    total = total + key + item;
                    k += 1;
                }
                total
            },
        }
    }
}

impl JsonValue {
    /// The size of the value, where it fits.
    fn size_checked(&self) -> (r: usize)
        requires
            json_size(*self) <= usize::MAX,
        ensures
            r == json_size(*self),
        decreases self, 1int,
    {
        self.size()
    }
}


proof fn lemma_items_grow(vs: Seq<JsonValue>, k: int, n: int)
    requires
        0 <= k <= n <= vs.len(),
    ensures
        items_size(vs, k) <= items_size(vs, n),
    decreases n,
{
    if k < n {
        lemma_items_grow(vs, k, n - 1);
        lemma_json_nonneg(vs[n - 1]);
    }
}

proof fn lemma_members_grow(ms: Seq<(String, JsonValue)>, k: int, n: int)
    requires
        0 <= k <= n <= ms.len(),
    ensures
        members_size(ms, k) <= members_size(ms, n),
    decreases n,
{
    if k < n {
        lemma_members_grow(ms, k, n - 1);
        lemma_json_nonneg(ms[n - 1].1);
    }
}

} // verus!
