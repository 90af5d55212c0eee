//! JSON values as the library reads them.
//!
//! A container carries its compact JSON encoding (keys in sorted order), so
//! that two values are equal exactly when they have the same kind and the
//! same content: scalars compare by content, containers by encoding.
use vstd::prelude::*;
use crate::text::{chars_eq, chars_of, push_all, push_str, string_from_chars};

verus! {

/// A JSON value.
#[derive(Debug)]
pub enum JsonValue {
    Null,
    Bool(bool),
    /// A number, by its JSON text (as `serde_json` prints it).
    Number(String),
    Str(String),
    /// An array and its compact JSON encoding.
    Array { items: Vec<JsonValue>, encoded: String },
    /// An object (keys unique and sorted) and its compact JSON encoding.
    Object { fields: Vec<(String, JsonValue)>, encoded: String },
}

/// JSON equality: same kind and same content.
pub open spec fn json_same(a: JsonValue, b: JsonValue) -> bool {
    match (a, b) {
        (JsonValue::Null, JsonValue::Null) => true,
        (JsonValue::Bool(x), JsonValue::Bool(y)) => x == y,
        (JsonValue::Number(x), JsonValue::Number(y)) => x@ == y@,
        (JsonValue::Str(x), JsonValue::Str(y)) => x@ == y@,
        (JsonValue::Array { encoded: x, .. }, JsonValue::Array { encoded: y, .. }) => x@ == y@,
        (JsonValue::Object { encoded: x, .. }, JsonValue::Object { encoded: y, .. }) => x@ == y@,
        _ => false,
    }
}

/// Decides [`json_same`].
pub fn json_eq(a: &JsonValue, b: &JsonValue) -> (r: bool)
    ensures
        r == json_same(*a, *b),
{
    match (a, b) {
        (JsonValue::Null, JsonValue::Null) => true,
        (JsonValue::Bool(x), JsonValue::Bool(y)) => *x == *y,
        (JsonValue::Number(x), JsonValue::Number(y)) => *x == *y,
        (JsonValue::Str(x), JsonValue::Str(y)) => *x == *y,
        (JsonValue::Array { encoded: x, .. }, JsonValue::Array { encoded: y, .. }) => *x == *y,
        (JsonValue::Object { encoded: x, .. }, JsonValue::Object { encoded: y, .. }) => *x == *y,
        _ => false,
    }
}

/// The value under `key` of an object; nothing for other values.
pub open spec fn field_of(v: JsonValue, key: Seq<char>) -> Option<JsonValue> {
    if v is Object && exists|i: int| 0 <= i < v->fields@.len() && #[trigger] v->fields@[i].0@ == key {
        Some(v->fields@[first_key_index(v->fields@, key)].1)
    } else {
        None
    }
}

/// Position of the first entry with key `key`.
pub open spec fn first_key_index(fields: Seq<(String, JsonValue)>, key: Seq<char>) -> int {
    choose|i: int| 0 <= i < fields.len() && fields[i].0@ == key && forall|j: int| 0 <= j < i ==> #[trigger] fields[j].0@ != key
}

/// Looks up `key` in an object.
pub fn get_field<'a>(v: &'a JsonValue, key: &[char]) -> (r: Option<&'a JsonValue>)
    ensures
        match r {
            Some(x) => field_of(*v, key@) == Some(*x),
            None => field_of(*v, key@) is None,
        },
{
    match v {
        JsonValue::Object { fields, .. } => {
            let mut i: usize = 0;
            while i < fields.len()
                invariant
                    i <= fields@.len(),
                    *v is Object,
                    v->fields == *fields,
                    forall|j: int| 0 <= j < i ==> #[trigger] fields@[j].0@ != key@,
                decreases fields@.len() - i,
            {
                let kc = chars_of(fields[i].0.as_str());
                if chars_eq(kc.as_slice(), key) {
                    proof {
                        assert(fields@[i as int].0@ == key@);
                        let ii = i as int;
                        assert(0 <= ii < fields@.len() && fields@[ii].0@ == key@ && forall|j: int| 0 <= j < ii ==> #[trigger] fields@[j].0@ != key@);
                        let c = first_key_index(fields@, key@);
                        assert(0 <= c < fields@.len() && fields@[c].0@ == key@ && forall|j: int| 0 <= j < c ==> #[trigger] fields@[j].0@ != key@);
                        if c < i {
                        } else if c > i {
                            assert(fields@[i as int].0@ != key@);
                        }
                        assert(c == ii);
                        assert(v->fields == *fields);
                        assert(exists|k: int| 0 <= k < fields@.len() && #[trigger] fields@[k].0@ == key@);
                        assert(field_of(*v, key@) == Some(fields@[ii].1));
                    }
                    return Some(&fields[i].1);
                }
                i = i + 1;
            }
            None
        },
        _ => None,
    }
}

/// Takes the value under `key` out of an object.
pub fn take_field(v: JsonValue, key: &[char]) -> (r: Option<JsonValue>)
    ensures
        r == field_of(v, key@),
{
    let found = get_field(&v, key).is_some();
    if !found {
        return None;
    }
    let ghost vv = v;
    match v {
        JsonValue::Object { mut fields, encoded } => {
            let ghost fv = fields@;
            let mut i: usize = 0;
            while i < fields.len()
                invariant
                    vv is Object,
                    vv == v,
                    vv->fields@ == fv,
                    fields@ == fv,
                    i <= fv.len(),
                    forall|j: int| 0 <= j < i ==> #[trigger] fv[j].0@ != key@,
                    exists|k: int| 0 <= k < fv.len() && #[trigger] fv[k].0@ == key@,
                decreases fv.len() - i,
            {
                let kc = chars_of(fields[i].0.as_str());
                if chars_eq(kc.as_slice(), key) {
                    proof {
                        let ii = i as int;
                        assert(0 <= ii < fv.len() && fv[ii].0@ == key@ && forall|j: int| 0 <= j < ii ==> #[trigger] fv[j].0@ != key@);
                        let c = first_key_index(fv, key@);
                        if c > ii {
                            assert(fv[ii].0@ != key@);
                        }
                        assert(c == ii);
                        assert(exists|k: int| 0 <= k < vv->fields@.len() && #[trigger] vv->fields@[k].0@ == key@);
                        assert(field_of(vv, key@) == Some(fv[ii].1));
                    }
                    let e = fields.remove(i);
                    return Some(e.1);
                }
                i = i + 1;
            }
            proof {
                let k = choose|k: int| 0 <= k < fv.len() && #[trigger] fv[k].0@ == key@;
                assert(fv[k].0@ != key@);
            }
            None
        },
        _ => None,
    }
}

/// Two JSON values are copies of each other: same kind, same scalar
/// content, same encoding, and items (or keys and values) that are copies
/// of each other, in order.
pub open spec fn json_copy_of(a: JsonValue, b: JsonValue) -> bool
    decreases a,
{
    match (a, b) {
        (JsonValue::Array { items: x, encoded: ex }, JsonValue::Array { items: y, encoded: ey }) => {
            &&& ex@ == ey@
            &&& x@.len() == y@.len()
            &&& forall|i: int| 0 <= i < x@.len() ==> json_copy_of(#[trigger] x@[i], y@[i])
        },
        (JsonValue::Object { fields: x, encoded: ex }, JsonValue::Object { fields: y, encoded: ey }) => {
            &&& ex@ == ey@
            &&& x@.len() == y@.len()
            &&& forall|i: int| 0 <= i < x@.len() ==> (#[trigger] x@[i]).0@ == y@[i].0@ && json_copy_of(x@[i].1, y@[i].1)
        },
        _ => json_same(a, b),
    }
}

/// A copy of a JSON value.
pub fn json_copy(v: &JsonValue) -> (r: JsonValue)
    ensures
        json_copy_of(*v, r),
        json_same(*v, r),
    decreases *v,
{
    match v {
        JsonValue::Null => JsonValue::Null,
        JsonValue::Bool(b) => JsonValue::Bool(*b),
        JsonValue::Number(t) => JsonValue::Number(t.clone()),
        JsonValue::Str(t) => JsonValue::Str(t.clone()),
        JsonValue::Array { items, encoded } => {
            let mut out: Vec<JsonValue> = Vec::new();
            let mut i: usize = 0;
            while i < items.len()
                invariant
                    i <= items@.len(),
                    out@.len() == i,
                    *v is Array,
                    v->items == *items,
                    forall|k: int| 0 <= k < i ==> json_copy_of(#[trigger] items@[k], out@[k]),
                decreases items@.len() - i,
            {
                assert(decreases_to!(*v => items@[i as int]));
                let c = json_copy(&items[i]);
                out.push(c);
                i = i + 1;
            }
            JsonValue::Array { items: out, encoded: encoded.clone() }
        },
        JsonValue::Object { fields, encoded } => {
            let mut out: Vec<(String, JsonValue)> = Vec::new();
            let mut i: usize = 0;
            while i < fields.len()
                invariant
                    i <= fields@.len(),
                    out@.len() == i,
                    *v is Object,
                    v->fields == *fields,
                    forall|k: int| 0 <= k < i ==> (#[trigger] fields@[k]).0@ == out@[k].0@ && json_copy_of(fields@[k].1, out@[k].1),
                decreases fields@.len() - i,
            {
                assert(decreases_to!(*v => fields@[i as int].1));
                let c = json_copy(&fields[i].1);
                out.push((fields[i].0.clone(), c));
                i = i + 1;
            }
            JsonValue::Object { fields: out, encoded: encoded.clone() }
        },
    }
}

} // verus!
