//! The condition language of triggers and the variable substitution of run
//! templates, over a signal's JSON payload.
//!
//! A path is dot-separated (`issue.number`); a path with `[].` expands an
//! array (`labels[].name` gives the `name` of every label).
use vstd::prelude::*;
use crate::json::{field_of, get_field, json_eq, json_same, JsonValue};
use crate::text::{
    chars_of, contains_chars, find_chars, find_from, has_sub, join, join_chars, occurs_at, push_all,
    push_str, slice_chars, split_chars, split_on, string_from_chars, string_views,
};

verus! {

/// Whether a path segment ends with `[]`.
pub open spec fn ends_with_brackets(s: Seq<char>) -> bool {
    s.len() >= 2 && s[s.len() - 2] == '[' && s[s.len() - 1] == ']'
}

/// The value at a list of path segments: `None` where a segment is missing,
/// or where one ends with `[]` (array paths go through [`resolve_all`]).
pub open spec fn resolve_segments(v: JsonValue, segs: Seq<Seq<char>>) -> Option<JsonValue>
    decreases segs.len(),
{
    if segs.len() == 0 {
        Some(v)
    } else if ends_with_brackets(segs[0]) {
        None
    } else {
        match field_of(v, segs[0]) {
            Some(x) => resolve_segments(x, segs.drop_first()),
            None => None,
        }
    }
}

/// The value at a dot-separated path.
pub open spec fn resolve(v: JsonValue, path: Seq<char>) -> Option<JsonValue> {
    resolve_segments(v, split_on(path, '.'))
}

/// The array-expansion marker `[].`.
pub open spec fn expansion_marker() -> Seq<char> {
    seq!['[', ']', '.']
}

/// The values at a field path inside each item of an array, in order
/// (items without it are left out).
pub open spec fn item_values(items: Seq<JsonValue>, fsegs: Seq<Seq<char>>) -> Seq<JsonValue>
    decreases items.len(),
{
    if items.len() == 0 {
        Seq::empty()
    } else {
        let rest = item_values(items.drop_last(), fsegs);
        match resolve_segments(items.last(), fsegs) {
            Some(x) => rest.push(x),
            None => rest,
        }
    }
}

/// The values at a path that may expand an array: without the marker, the
/// value at the path (if any); with it, the values at the part after the
/// first marker inside each item of the array at the part before it.
pub open spec fn resolve_all(v: JsonValue, path: Seq<char>) -> Seq<JsonValue> {
    match find_from(path, expansion_marker(), 0) {
        None => match resolve(v, path) {
            Some(x) => seq![x],
            None => Seq::empty(),
        },
        Some(k) => match resolve(v, path.take(k)) {
            Some(JsonValue::Array { items, .. }) => item_values(items@, split_on(path.skip(k + 3), '.')),
            _ => Seq::empty(),
        },
    }
}

/// The value at a dot-separated path of a payload.
pub fn resolve_path<'a>(value: &'a JsonValue, path: &[char]) -> (r: Option<&'a JsonValue>)
    ensures
        match r {
            Some(x) => resolve(*value, path@) == Some(*x),
            None => resolve(*value, path@) is None,
        },
{
    let segs = split_chars(path, '.');
    let ghost sv = split_on(path@, '.');
    let mut cur = value;
    let mut i: usize = 0;
    assert(sv.skip(0) =~= sv);
    while i < segs.len()
        invariant
            i <= segs@.len(),
            segs@.len() == sv.len(),
            sv == split_on(path@, '.'),
            forall|j: int| 0 <= j < segs@.len() ==> #[trigger] segs@[j]@ == sv[j],
            resolve_segments(*value, sv) == resolve_segments(*cur, sv.skip(i as int)),
        decreases segs@.len() - i,
    {
        assert(sv.skip(i as int).drop_first() =~= sv.skip(i + 1));
        assert(sv.skip(i as int)[0] == sv[i as int]);
        let seg = &segs[i];
        let n = seg.len();
        if n >= 2 && seg[n - 2] == '[' && seg[n - 1] == ']' {
            return None;
        }
        match get_field(cur, seg.as_slice()) {
            Some(x) => {
                cur = x;
            },
            None => {
                return None;
            },
        }
        i = i + 1;
    }
    assert(sv.skip(segs@.len() as int) =~= Seq::<Seq<char>>::empty());
    Some(cur)
}

pub open spec fn deref_all(v: Seq<&JsonValue>) -> Seq<JsonValue> {
    v.map_values(|x: &JsonValue| *x)
}

/// The values at a path that may expand an array.
pub fn resolve_array_path<'a>(value: &'a JsonValue, path: &[char]) -> (r: Vec<&'a JsonValue>)
    ensures
        deref_all(r@) == resolve_all(*value, path@),
{
    let mut marker: Vec<char> = Vec::new();
    marker.push('[');
    marker.push(']');
    marker.push('.');
    assert(marker@ =~= expansion_marker());
    let mut out: Vec<&'a JsonValue> = Vec::new();
    match find_chars(path, marker.as_slice(), 0) {
        None => {
            match resolve_path(value, path) {
                Some(x) => {
                    out.push(x);
                    assert(deref_all(out@) =~= seq![*x]);
                },
                None => {
                    assert(deref_all(out@) =~= Seq::<JsonValue>::empty());
                },
            }
            out
        },
        Some(k) => {
            proof {
                crate::text::lemma_find_from(path@, marker@, 0);
                assert(marker@.len() == 3);
                assert(find_from(path@, marker@, 0) == Some(k as int));
                assert(k + 3 <= path@.len());
            }
            let plen = path.len();
            assert(plen == path@.len());
            let head = slice_chars(path, 0, k);
            let tail = slice_chars(path, k + 3, plen);
            assert(head@ =~= path@.take(k as int));
            assert(tail@ =~= path@.skip(k + 3));
            match resolve_path(value, head.as_slice()) {
                Some(JsonValue::Array { items, .. }) => {
                    let ghost fs = split_on(tail@, '.');
                    let mut i: usize = 0;
                    while i < items.len()
                        invariant
                            i <= items@.len(),
                            fs == split_on(tail@, '.'),
                            deref_all(out@) == item_values(items@.take(i as int), fs),
                        decreases items@.len() - i,
                    {
                        assert(items@.take(i + 1).drop_last() =~= items@.take(i as int));
                        assert(items@.take(i + 1).last() == items@[i as int]);
                        let ghost before = out@;
                        match resolve_path(&items[i], tail.as_slice()) {
                            Some(x) => {
                                out.push(x);
                                assert(deref_all(out@) =~= deref_all(before).push(*x));
                            },
                            None => {},
                        }
                        i = i + 1;
                    }
                    assert(items@.take(items@.len() as int) =~= items@);
                    out
                },
                _ => {
                    assert(deref_all(out@) =~= Seq::<JsonValue>::empty());
                    out
                },
            }
        },
    }
}

/// A condition on a signal payload.
#[derive(Debug)]
pub enum TriggerCondition {
    /// The value at the path equals the given value.
    Equals { path: String, value: JsonValue },
    /// One of the values at the (array-expanding) path equals the given value.
    Contains { path: String, value: JsonValue },
    /// The path has a value.
    Exists { path: String },
    /// The inner condition does not hold.
    Not(Box<TriggerCondition>),
}

/// Whether a condition holds of a payload.
#[verifier::opaque]
pub open spec fn holds(c: TriggerCondition, payload: JsonValue) -> bool
    decreases c,
{
    match c {
        TriggerCondition::Equals { path, value } => match resolve(payload, path@) {
            Some(x) => json_same(x, value),
            None => false,
        },
        TriggerCondition::Contains { path, value } => exists|i: int|
            0 <= i < resolve_all(payload, path@).len() && json_same(#[trigger] resolve_all(payload, path@)[i], value),
        TriggerCondition::Exists { path } => resolve(payload, path@) is Some,
        TriggerCondition::Not(inner) => !holds(*inner, payload),
    }
}

/// Whether every condition holds of a payload.
pub open spec fn all_hold(cs: Seq<TriggerCondition>, payload: JsonValue) -> bool {
    forall|i: int| 0 <= i < cs.len() ==> holds(#[trigger] cs[i], payload)
}

fn contains_value(vals: &Vec<&JsonValue>, value: &JsonValue) -> (r: bool)
    ensures
        r == exists|i: int| 0 <= i < deref_all(vals@).len() && json_same(#[trigger] deref_all(vals@)[i], *value),
{
    let ghost all = deref_all(vals@);
    let mut i: usize = 0;
    while i < vals.len()
        invariant
            i <= vals@.len(),
            all == deref_all(vals@),
            forall|j: int| 0 <= j < i ==> !json_same(#[trigger] all[j], *value),
        decreases vals@.len() - i,
    {
        assert(all[i as int] == *vals@[i as int]);
        if json_eq(vals[i], value) {
            return true;
        }
        i = i + 1;
    }
    false
}

/// Evaluates a condition against a payload.
pub fn evaluate_condition(condition: &TriggerCondition, payload: &JsonValue) -> (r: bool)
    ensures
        r == holds(*condition, *payload),
    decreases condition,
{
    reveal(holds);
    match condition {
        TriggerCondition::Equals { path, value } => {
            let p = chars_of(path.as_str());
            match resolve_path(payload, p.as_slice()) {
                Some(x) => json_eq(x, value),
                None => false,
            }
        },
        TriggerCondition::Contains { path, value } => {
            let p = chars_of(path.as_str());
            let vals = resolve_array_path(payload, p.as_slice());
            contains_value(&vals, value)
        },
        TriggerCondition::Exists { path } => {
            let p = chars_of(path.as_str());
            resolve_path(payload, p.as_slice()).is_some()
        },
        TriggerCondition::Not(inner) => !evaluate_condition(inner, payload),
    }
}

/// Evaluates all conditions: every one must hold.
pub fn evaluate_conditions(conditions: &Vec<TriggerCondition>, payload: &JsonValue) -> (r: bool)
    ensures
        r == all_hold(conditions@, *payload),
{
    let mut i: usize = 0;
    while i < conditions.len()
        invariant
            i <= conditions@.len(),
            forall|j: int| 0 <= j < i ==> holds(#[trigger] conditions@[j], *payload),
        decreases conditions@.len() - i,
    {
        if !evaluate_condition(&conditions[i], payload) {
            return false;
        }
        i = i + 1;
    }
    true
}

/// The text a value stands for in a template: a string as it is, a number
/// as printed, a boolean as `true`/`false`, null as nothing, a container as
/// its JSON.
pub open spec fn value_text(v: JsonValue) -> Seq<char> {
    match v {
        JsonValue::Str(s) => s@,
        JsonValue::Number(t) => t@,
        JsonValue::Bool(b) => if b { "true"@ } else { "false"@ },
        JsonValue::Null => Seq::empty(),
        JsonValue::Array { encoded, .. } => encoded@,
        JsonValue::Object { encoded, .. } => encoded@,
    }
}

fn value_chars(v: &JsonValue) -> (r: Vec<char>)
    ensures
        r@ == value_text(*v),
{
    match v {
        JsonValue::Str(s) => chars_of(s.as_str()),
        JsonValue::Number(t) => chars_of(t.as_str()),
        JsonValue::Bool(b) => if *b { chars_of("true") } else { chars_of("false") },
        JsonValue::Null => Vec::new(),
        JsonValue::Array { encoded, .. } => chars_of(encoded.as_str()),
        JsonValue::Object { encoded, .. } => chars_of(encoded.as_str()),
    }
}

/// The separator of expanded array values.
pub open spec fn list_separator() -> Seq<char> {
    seq![',', ' ']
}

/// What a placeholder with the given path is replaced by: the texts of the
/// expanded values joined by `, `, or the text of the value at the path
/// (nothing when there is none).
pub open spec fn placeholder_text(payload: JsonValue, path: Seq<char>) -> Seq<char> {
    if has_sub(path, expansion_marker()) {
        join(resolve_all(payload, path).map_values(|v: JsonValue| value_text(v)), list_separator())
    } else {
        match resolve(payload, path) {
            Some(v) => value_text(v),
            None => Seq::empty(),
        }
    }
}

fn joined_texts(vals: &Vec<&JsonValue>) -> (r: Vec<char>)
    ensures
        r@ == join(deref_all(vals@).map_values(|v: JsonValue| value_text(v)), list_separator()),
{
    let ghost all = deref_all(vals@);
    let mut texts: Vec<Vec<char>> = Vec::new();
    let mut i: usize = 0;
    while i < vals.len()
        invariant
            i <= vals@.len(),
            all == deref_all(vals@),
            texts@.len() == i,
            forall|j: int| 0 <= j < i ==> #[trigger] texts@[j]@ == value_text(all[j]),
        decreases vals@.len() - i,
    {
        assert(all[i as int] == *vals@[i as int]);
        texts.push(value_chars(vals[i]));
        i = i + 1;
    }
    let mut sep: Vec<char> = Vec::new();
    sep.push(',');
    sep.push(' ');
    assert(sep@ =~= list_separator());
    assert(texts@.map_values(|p: Vec<char>| p@) =~= all.map_values(|v: JsonValue| value_text(v)));
    join_chars(&texts, sep.as_slice())
}

fn placeholder_chars(payload: &JsonValue, path: &[char]) -> (r: Vec<char>)
    ensures
        r@ == placeholder_text(*payload, path@),
{
    let mut marker: Vec<char> = Vec::new();
    marker.push('[');
    marker.push(']');
    marker.push('.');
    assert(marker@ =~= expansion_marker());
    if contains_chars(path, marker.as_slice()) {
        let vals = resolve_array_path(payload, path);
        joined_texts(&vals)
    } else {
        match resolve_path(payload, path) {
            Some(v) => value_chars(v),
            None => Vec::new(),
        }
    }
}

/// The opening and closing marks of a placeholder.
pub open spec fn open_mark() -> Seq<char> {
    seq!['{', '{']
}

pub open spec fn close_mark() -> Seq<char> {
    seq!['}', '}']
}

/// A template with every `{{path}}` replaced by its text; an opening mark
/// without a closing one is kept as it is.
pub open spec fn substituted(s: Seq<char>, payload: JsonValue) -> Seq<char>
    decreases s.len(),
{
    match find_from(s, open_mark(), 0) {
        None => s,
        Some(o) => if 0 <= o && o + 2 <= s.len() {
            let rest = s.skip(o + 2);
            s.take(o) + match find_from(rest, close_mark(), 0) {
                Some(c) => if 0 <= c && c + 2 <= rest.len() {
                    placeholder_text(payload, rest.take(c)) + substituted(rest.skip(c + 2), payload)
                } else {
                    Seq::empty()
                },
                None => open_mark() + substituted(rest, payload),
            }
        } else {
            Seq::empty()
        },
    }
}

/// The required fields that the payload lacks, in order.
pub open spec fn missing_fields(fields: Seq<Seq<char>>, payload: JsonValue) -> Seq<Seq<char>> {
    fields.filter(|f: Seq<char>| resolve(payload, f) is None)
}

/// Substitutes `{{path}}` placeholders with values of the payload; fails
/// with the required fields that the payload lacks.
pub fn substitute_variables(template: &str, payload: &JsonValue, required_fields: &Vec<String>) -> (r: Result<String, Vec<String>>)
    ensures
        missing_fields(string_views(required_fields@), *payload).len() == 0 <==> r is Ok,
        r matches Ok(s) ==> s@ == substituted(template@, *payload),
        r matches Err(m) ==> string_views(m@) == missing_fields(string_views(required_fields@), *payload),
{
    let mut om: Vec<char> = Vec::new();
    om.push('{');
    om.push('{');
    let mut cm: Vec<char> = Vec::new();
    cm.push('}');
    cm.push('}');
    assert(om@ =~= open_mark());
    assert(cm@ =~= close_mark());
    let c = chars_of(template);
    let mut out: Vec<char> = Vec::new();
    let mut rest: Vec<char> = c;
    loop
        invariant_except_break
            om@ == open_mark(),
            cm@ == close_mark(),
            out@ + substituted(rest@, *payload) == substituted(template@, *payload),
        ensures
            out@ == substituted(template@, *payload),
        decreases rest@.len(),
    {
        let ghost r0 = rest@;
        proof {
            crate::text::lemma_find_from(r0, open_mark(), 0);
        }
        match find_chars(rest.as_slice(), om.as_slice(), 0) {
            None => {
                let ghost before = out@;
                push_all(&mut out, rest.as_slice());
                assert(substituted(r0, *payload) == r0);
                assert(out@ =~= before + substituted(r0, *payload));
                break;
            },
            Some(o) => {
                assert(open_mark().len() == 2);
                assert(close_mark().len() == 2);
                assert(find_from(r0, open_mark(), 0) == Some(o as int));
                assert(o + 2 <= r0.len());
                let rlen = rest.len();
                assert(rlen == r0.len());
                let head = slice_chars(rest.as_slice(), 0, o);
                let after = slice_chars(rest.as_slice(), o + 2, rlen);
                assert(head@ =~= r0.take(o as int));
                assert(after@ =~= r0.skip(o + 2));
                proof {
                    crate::text::lemma_find_from(after@, close_mark(), 0);
                }
                push_all(&mut out, head.as_slice());
                match find_chars(after.as_slice(), cm.as_slice(), 0) {
                    Some(k) => {
                        let path = slice_chars(after.as_slice(), 0, k);
                        assert(path@ =~= after@.take(k as int));
                        let text = placeholder_chars(payload, path.as_slice());
                        push_all(&mut out, text.as_slice());
                        let next = slice_chars(after.as_slice(), k + 2, after.len());
                        assert(next@ =~= after@.skip(k + 2));
                        rest = next;
                    },
                    None => {
                        push_all(&mut out, om.as_slice());
                        rest = after;
                    },
                }
            },
        }
    }
    let mut missing: Vec<String> = Vec::new();
    let ghost fv = string_views(required_fields@);
    let ghost pred = |f: Seq<char>| resolve(*payload, f) is None;
    let mut i: usize = 0;
    while i < required_fields.len()
        invariant
            i <= required_fields@.len(),
            fv == string_views(required_fields@),
            pred == (|f: Seq<char>| resolve(*payload, f) is None),
            string_views(missing@) == fv.take(i as int).filter(pred),
        decreases required_fields@.len() - i,
    {
        proof {
            assert(fv.take(i + 1) =~= fv.take(i as int).push(fv[i as int]));
            fv.take(i as int).lemma_filter_push(fv[i as int], pred);
        }
        let f = chars_of(required_fields[i].as_str());
        if resolve_path(payload, f.as_slice()).is_none() {
            let ghost before = missing@;
            missing.push(required_fields[i].clone());
            assert(string_views(missing@) =~= string_views(before).push(fv[i as int]));
        }
        i = i + 1;
    }
    assert(fv.take(fv.len() as int) =~= fv);
    if missing.len() == 0 {
        Ok(string_from_chars(out.as_slice()))
    } else {
        Err(missing)
    }
}

/// A `Contains` condition holds exactly when one of the values at its path
/// (any one, wherever it stands among them) is the given value; in
/// particular it holds as soon as the first of them is.
/// `holds` on a `Contains` condition, unfolded.
proof fn lemma_contains_unfold(c: TriggerCondition, payload: JsonValue)
    requires
        c is Contains,
    ensures
        holds(c, payload) == exists|i: int|
            0 <= i < resolve_all(payload, c->Contains_path@).len() && json_same(
                #[trigger] resolve_all(payload, c->Contains_path@)[i],
                c->Contains_value,
            ),
{
    reveal(holds);
}

/// A `Contains` condition holds exactly when one of the values at its path
/// (any one, wherever it stands among them) is the given value; in
/// particular it holds as soon as the first of them is.
pub proof fn law_contains_any_value(path: String, value: JsonValue, payload: JsonValue)
    ensures
        forall|i: int| 0 <= i < resolve_all(payload, path@).len() && json_same(#[trigger] resolve_all(payload, path@)[i], value)
            ==> holds(TriggerCondition::Contains { path, value }, payload),
        holds(TriggerCondition::Contains { path, value }, payload) ==> exists|i: int|
            0 <= i < resolve_all(payload, path@).len() && json_same(#[trigger] resolve_all(payload, path@)[i], value),
        resolve_all(payload, path@).len() == 0 ==> !holds(TriggerCondition::Contains { path, value }, payload),
{
    let c = TriggerCondition::Contains { path, value };
    lemma_contains_unfold(c, payload);
    assert(c->Contains_path@ == path@ && c->Contains_value == value);
    assert forall|i: int| 0 <= i < resolve_all(payload, path@).len() && json_same(#[trigger] resolve_all(payload, path@)[i], value)
        implies holds(c, payload) by {
        assert(json_same(resolve_all(payload, c->Contains_path@)[i], c->Contains_value));
    }
}

/// The other conditions: `Equals` holds exactly when the path has a value
/// that is the given one, `Exists` exactly when the path has a value, and
/// `Not` exactly when its inner condition does not hold.
pub proof fn law_condition_kinds(path: String, value: JsonValue, inner: TriggerCondition, payload: JsonValue)
    ensures
        holds(TriggerCondition::Equals { path, value }, payload) == (resolve(payload, path@) matches Some(x) && json_same(x, value)),
        holds(TriggerCondition::Exists { path }, payload) == (resolve(payload, path@) is Some),
        holds(TriggerCondition::Not(Box::new(inner)), payload) == !holds(inner, payload),
{
    reveal(holds);
}

/// The values an array path collects: for each item of the array that has
/// a value at the field path, that value, and nothing else.
pub proof fn law_item_values_collects_each_item(items: Seq<JsonValue>, fsegs: Seq<Seq<char>>)
    ensures
        forall|j: int| 0 <= j < items.len() && #[trigger] resolve_segments(items[j], fsegs) is Some ==> item_values(items, fsegs).contains(
            resolve_segments(items[j], fsegs)->0,
        ),
        forall|k: int| 0 <= k < item_values(items, fsegs).len() ==> exists|j: int|
            0 <= j < items.len() && #[trigger] resolve_segments(items[j], fsegs) == Some(#[trigger] item_values(items, fsegs)[k]),
    decreases items.len(),
{
    if items.len() > 0 {
        let p = items.drop_last();
        law_item_values_collects_each_item(p, fsegs);
        let rest = item_values(p, fsegs);
        let all = item_values(items, fsegs);
        let n = items.len() - 1;
        assert forall|j: int| 0 <= j < items.len() && #[trigger] resolve_segments(items[j], fsegs) is Some implies all.contains(
            resolve_segments(items[j], fsegs)->0,
        ) by {
            if j < n {
                assert(items[j] == p[j]);
                let x = resolve_segments(items[j], fsegs)->0;
                assert(rest.contains(x));
                let k = choose|k: int| 0 <= k < rest.len() && rest[k] == x;
                if resolve_segments(items.last(), fsegs) is Some {
                    assert(all[k] == rest[k]);
                }
            } else {
                assert(all[all.len() - 1] == resolve_segments(items[j], fsegs)->0);
            }
        }
        assert forall|k: int| 0 <= k < all.len() implies exists|j: int|
            0 <= j < items.len() && #[trigger] resolve_segments(items[j], fsegs) == Some(#[trigger] all[k]) by {
            if k < rest.len() {
                assert(all[k] == rest[k]);
                let j = choose|j: int| 0 <= j < p.len() && #[trigger] resolve_segments(p[j], fsegs) == Some(rest[k]);
                assert(items[j] == p[j]);
            } else {
                assert(resolve_segments(items[n], fsegs) == Some(all[k]));
            }
        }
    }
}

} // verus!
