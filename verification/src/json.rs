//! The library's own model of a JSON value, as plain values: what the
//! backend-response decoders read. The caller converts the wire format's
//! value into this type; everything the decoders conclude from it is then
//! stated exactly over it. A number that is not an unsigned integer keeps
//! only that fact — the decoders never read such a number's value.

use vstd::prelude::*;

verus! {

/// A JSON value over plain values. Object fields keep the order the caller
/// handed them in; a key's value is the first field with that key.
#[derive(Debug)]
pub enum JsonValue {
    Null,
    Bool(bool),
    /// A number representable as an unsigned integer.
    UInt(u64),
    /// A number that is not representable as an unsigned integer; the
    /// decoders treat it as "not an unsigned integer" and nothing more.
    NonUIntNumber,
    Text(String),
    List(Vec<JsonValue>),
    Object(Vec<(String, JsonValue)>),
}

/// Whether a field holds the given key.
pub open spec fn field_hit(f: (String, JsonValue), key: Seq<char>) -> bool {
    f.0@ == key
}

/// First field with the given key, if any.
pub open spec fn key_match(fields: Seq<(String, JsonValue)>, key: Seq<char>) -> Option<int>
    decreases fields.len(),
{
    if fields.len() == 0 {
        None
    } else if field_hit(fields[0], key) {
        Some(0)
    } else {
        match key_match(fields.drop_first(), key) {
            Some(j) => Some(j + 1),
            None => None,
        }
    }
}

/// `key_match` returns the index of a hit that nothing precedes.
proof fn lemma_key_match_at(fields: Seq<(String, JsonValue)>, key: Seq<char>, j: int)
    requires
        0 <= j < fields.len(),
        field_hit(fields[j], key),
        forall|l: int| 0 <= l < j ==> !field_hit(#[trigger] fields[l], key),
    ensures
        key_match(fields, key) == Some(j),
    decreases j,
{
    if j > 0 {
        assert(forall|l: int|
            1 <= l < fields.len() ==> #[trigger] fields[l] == fields.drop_first()[l - 1]);
        lemma_key_match_at(fields.drop_first(), key, j - 1);
    }
}

/// With no field of that key, `key_match` returns `None`.
proof fn lemma_key_match_none(fields: Seq<(String, JsonValue)>, key: Seq<char>)
    requires
        forall|l: int| 0 <= l < fields.len() ==> !field_hit(#[trigger] fields[l], key),
    ensures
        key_match(fields, key) is None,
    decreases fields.len(),
{
    if fields.len() > 0 {
        assert(forall|l: int|
            1 <= l < fields.len() ==> #[trigger] fields[l] == fields.drop_first()[l - 1]);
        lemma_key_match_none(fields.drop_first(), key);
    }
}

/// The value under `key`: the first matching field of an object, `None` for
/// anything that is not an object or has no such field.
pub open spec fn spec_member(v: JsonValue, key: Seq<char>) -> Option<JsonValue> {
    match v {
        JsonValue::Object(fields) => match key_match(fields@, key) {
            Some(j) => Some(fields@[j].1),
            None => None,
        },
        _ => None,
    }
}

/// The element at `i`: of a list, in range; `None` otherwise.
pub open spec fn spec_element(v: JsonValue, i: int) -> Option<JsonValue> {
    match v {
        JsonValue::List(items) => if 0 <= i < items@.len() {
            Some(items@[i])
        } else {
            None
        },
        _ => None,
    }
}

/// The value as an unsigned integer, if it is one.
pub open spec fn spec_u64(v: JsonValue) -> Option<u64> {
    match v {
        JsonValue::UInt(x) => Some(x),
        _ => None,
    }
}

/// The value's characters, if it is a string.
pub open spec fn spec_text(v: JsonValue) -> Option<Seq<char>> {
    match v {
        JsonValue::Text(s) => Some(s@),
        _ => None,
    }
}

impl JsonValue {
    /// The value under `key`, when this value is an object holding one.
    pub fn member<'a>(&'a self, key: &str) -> (r: Option<&'a JsonValue>)
        ensures
            match spec_member(*self, key@) {
                Some(m) => r matches Some(found) && *found == m,
                None => r is None,
            },
    {
        match self {
            JsonValue::Object(fields) => {
                let wanted: String = key.to_owned();
                let ghost fs = fields@;
                let mut j: usize = 0;
                while j < fields.len()
                    invariant
                        j <= fs.len(),
                        fs == fields@,
                        *self == JsonValue::Object(*fields),
                        wanted@ == key@,
                        forall|l: int| 0 <= l < j ==> !field_hit(#[trigger] fs[l], key@),
                    decreases fs.len() - j,
                {
                    if wanted.eq(&fields[j].0) {
                        proof {
                            lemma_key_match_at(fs, key@, j as int);
                        }
                        return Some(&fields[j].1);
                    }
                    j += 1;
                }
                proof {
                    lemma_key_match_none(fs, key@);
                }
                None
            },
            _ => None,
        }
    }

    /// The element at `i`, when this value is a list long enough.
    pub fn element(&self, i: usize) -> (r: Option<&JsonValue>)
        ensures
            match spec_element(*self, i as int) {
                Some(e) => r matches Some(found) && *found == e,
                None => r is None,
            },
    {
        match self {
            JsonValue::List(items) => if i < items.len() {
                Some(&items[i])
            } else {
                None
            },
            _ => None,
        }
    }

    /// The value as an unsigned integer, if it is one.
    pub fn as_u64(&self) -> (r: Option<u64>)
        ensures
            r == spec_u64(*self),
    {
        match self {
            JsonValue::UInt(x) => Some(*x),
            _ => None,
        }
    }

    /// The value's string, if it is one.
    pub fn as_text(&self) -> (r: Option<&String>)
        ensures
            match spec_text(*self) {
                Some(t) => r matches Some(s) && s@ == t,
                None => r is None,
            },
    {
        match self {
            JsonValue::Text(s) => Some(s),
            _ => None,
        }
    }

    /// The value's elements, if it is a list.
    pub fn as_list(&self) -> (r: Option<&Vec<JsonValue>>)
        ensures
            self matches JsonValue::List(items) ==> (r matches Some(found) && *found == items),
            !(self matches JsonValue::List(_)) ==> r is None,
    {
        match self {
            JsonValue::List(items) => Some(items),
            _ => None,
        }
    }
}

} // verus!
