//! Metadata values as JSON.
use vstd::prelude::*;
use vstd::string::*;
use crate::float::{f32_bits_to_f64, f64_finite, f64_of_f32};
use crate::types::{gguf_type_name, lemma_array_view, values_view, GgufValue, ValueView};

verus! {

/// A JSON document. A number that is not an integer is held as the bit pattern of a finite double
/// precision number; an object keeps its members in the order in which they were written.
#[derive(Debug, PartialEq)]
pub enum Json {
    Null,
    Bool(bool),
    U64(u64),
    I64(i64),
    Float(u64),
    String(String),
    Array(Vec<Json>),
    Object(Vec<(String, Json)>),
}

/// A [`Json`] document with its strings, arrays and objects as sequences.
pub enum JsonView {
    Null,
    Bool(bool),
    U64(u64),
    I64(i64),
    Float(u64),
    String(Seq<char>),
    Array(Seq<JsonView>),
    Object(Seq<(Seq<char>, JsonView)>),
}

/// The view of a document.
pub open spec fn json_view(j: Json) -> JsonView
    decreases j,
{
    match j {
        Json::Null => JsonView::Null,
        Json::Bool(b) => JsonView::Bool(b),
        Json::U64(n) => JsonView::U64(n),
        Json::I64(n) => JsonView::I64(n),
        Json::Float(b) => JsonView::Float(b),
        Json::String(s) => JsonView::String(s@),
        Json::Array(v) => JsonView::Array(
            Seq::new(
                v@.len(),
                |i: int|
                    if 0 <= i < v@.len() {
                        json_view(v@[i])
                    } else {
                        arbitrary()
                    },
            ),
        ),
        Json::Object(v) => JsonView::Object(
            Seq::new(
                v@.len(),
                |i: int|
                    if 0 <= i < v@.len() {
                        (v@[i].0@, json_view(v@[i].1))
                    } else {
                        arbitrary()
                    },
            ),
        ),
    }
}

impl View for Json {
    type V = JsonView;

    open spec fn view(&self) -> JsonView {
        json_view(*self)
    }
}

/// The views of documents in a row.
pub open spec fn jsons_view(s: Seq<Json>) -> Seq<JsonView> {
    Seq::new(s.len(), |i: int| s[i]@)
}

/// The views of the members of an object.
pub open spec fn members_view(s: Seq<(String, Json)>) -> Seq<(Seq<char>, JsonView)> {
    Seq::new(s.len(), |i: int| (s[i].0@, s[i].1@))
}

pub proof fn lemma_json_array_view(v: Vec<Json>)
    ensures
        json_view(Json::Array(v)) == JsonView::Array(jsons_view(v@)),
{
    assert(json_view(Json::Array(v))->Array_0 =~= jsons_view(v@));
}

pub proof fn lemma_json_object_view(v: Vec<(String, Json)>)
    ensures
        json_view(Json::Object(v)) == JsonView::Object(members_view(v@)),
{
    assert(json_view(Json::Object(v))->Object_0 =~= members_view(v@));
}

/// A double precision number in JSON: `null` where it is not finite.
pub open spec fn float_json(b: u64) -> JsonView {
    if f64_finite(b) {
        JsonView::Float(b)
    } else {
        JsonView::Null
    }
}

/// How many of `n` elements are shown under a limit.
pub open spec fn shown_count(n: nat, limit: Option<usize>) -> nat {
    match limit {
        Some(l) => if l < n {
            l as nat
        } else {
            n
        },
        None => n,
    }
}

/// A metadata value in JSON. An array becomes an object with its element type, its length and at
/// most `limit` of its elements; where elements were left out the object says so.
pub open spec fn value_json(v: ValueView, limit: Option<usize>) -> JsonView
    decreases v,
{
    match v {
        ValueView::U8(x) => JsonView::U64(x as u64),
        ValueView::I8(x) => JsonView::I64(x as i64),
        ValueView::U16(x) => JsonView::U64(x as u64),
        ValueView::I16(x) => JsonView::I64(x as i64),
        ValueView::U32(x) => JsonView::U64(x as u64),
        ValueView::I32(x) => JsonView::I64(x as i64),
        ValueView::U64(x) => JsonView::U64(x),
        ValueView::I64(x) => JsonView::I64(x),
        ValueView::F32(b) => float_json(f64_of_f32(b)),
        ValueView::F64(b) => float_json(b),
        ValueView::Bool(b) => JsonView::Bool(b),
        ValueView::String(s) => JsonView::String(s),
        ValueView::Array(ty, data) => {
            let total = JsonView::U64(data.len() as u64);
            let shown = Seq::new(
                shown_count(data.len(), limit),
                |i: int|
                    if 0 <= i < data.len() {
                        value_json(data[i], None)
                    } else {
                        arbitrary()
                    },
            );
            let head = seq![
                ("element_type"@, JsonView::String(gguf_type_name(ty))),
                ("count"@, total),
                ("value"@, JsonView::Array(shown)),
            ];
            if shown_count(data.len(), limit) < data.len() {
                JsonView::Object(
                    head + seq![("truncated"@, JsonView::Bool(true)), ("total"@, total)],
                )
            } else {
                JsonView::Object(head)
            }
        },
    }
}

fn float_to_json(b: u64) -> (r: Json)
    ensures
        r@ == float_json(b),
{
    if (b / 0x10_0000_0000_0000) % 0x800 == 0x7ff {
        Json::Null
    } else {
        Json::Float(b)
    }
}

/// A member of an object, behind the members that it has.
pub(crate) fn push_member(out: &mut Vec<(String, Json)>, key: &str, value: Json)
    ensures
        members_view(final(out)@) == members_view(old(out)@).push((key@, value@)),
{
    let mut k = String::new();
    k.append(key);
    assert(k@ =~= key@);
    out.push((k, value));
    assert(members_view(out@) =~= members_view(old(out)@).push((key@, value@)));
}

/// A metadata value in JSON, with at most `max_array_elements` elements of an array.
pub fn value_to_json(v: &GgufValue, max_array_elements: Option<usize>) -> (r: Json)
    ensures
        r@ == value_json(v@, max_array_elements),
    decreases *v,
{
    match v {
        GgufValue::U8(x) => Json::U64(*x as u64),
        GgufValue::I8(x) => Json::I64(*x as i64),
        GgufValue::U16(x) => Json::U64(*x as u64),
        GgufValue::I16(x) => Json::I64(*x as i64),
        GgufValue::U32(x) => Json::U64(*x as u64),
        GgufValue::I32(x) => Json::I64(*x as i64),
        GgufValue::U64(x) => Json::U64(*x),
        GgufValue::I64(x) => Json::I64(*x),
        GgufValue::F32(b) => float_to_json(f32_bits_to_f64(*b)),
        GgufValue::F64(b) => float_to_json(*b),
        GgufValue::Bool(b) => Json::Bool(*b),
        GgufValue::String(s) => Json::String(s.clone()),
        GgufValue::Array(a) => {
            let total: usize = a.data.len();
            let limit: usize = match max_array_elements {
                Some(l) => l,
                None => usize::MAX,
            };
            let shown: usize = if limit < total {
                limit
            } else {
                total
            };
            proof {
                lemma_array_view(*a);
            }
            let ghost views = values_view(a.data@);
            let mut items: Vec<Json> = Vec::new();
            let mut i: usize = 0;
            while i < shown
                invariant
                    i <= shown <= a.data@.len(),
                    *v == GgufValue::Array(*a),
                    views == values_view(a.data@),
                    items@.len() == i,
                    forall|k: int| 0 <= k < i ==> (#[trigger] items@[k])@ == value_json(views[k], None),
                decreases shown - i,
            {
                let elem: &GgufValue = &a.data[i];
                assert(decreases_to!(*v => *elem)) by {
                    assert(decreases_to!(*v => v->Array_0));
                    assert(decreases_to!(*a => a.data));
                    assert(decreases_to!(a.data => a.data[i as int]));
                }
                let j = value_to_json(elem, None);
                items.push(j);
                i += 1;
                assert(views[i - 1] == elem@);
            }
            let mut members: Vec<(String, Json)> = Vec::new();
            proof {
                lemma_json_array_view(items);
            }
            let name = a.elem_type.to_string();
            push_member(&mut members, "element_type", Json::String(name));
            push_member(&mut members, "count", Json::U64(total as u64));
            push_member(&mut members, "value", Json::Array(items));
            if total > limit {
                push_member(&mut members, "truncated", Json::Bool(true));
                push_member(&mut members, "total", Json::U64(total as u64));
            }
            proof {
                lemma_json_object_view(members);
                let want = value_json(v@, max_array_elements);
                assert(jsons_view(items@) =~= want->Object_0[2].1->Array_0);
                assert(members_view(members@) =~= want->Object_0);
            }
            Json::Object(members)
        },
    }
}

/// A limit that is not below an array's length changes nothing.
pub proof fn wide_limit_changes_nothing(v: ValueView, limit: usize)
    requires
        v matches ValueView::Array(_, data) ==> data.len() <= limit,
    ensures
        value_json(v, Some(limit)) == value_json(v, None),
{
    if let ValueView::Array(_, data) = v {
        let cut = value_json(v, Some(limit))->Object_0;
        let all = value_json(v, None)->Object_0;
        assert(cut[2].1->Array_0 =~= all[2].1->Array_0);
        assert(cut =~= all);
    }
}

} // verus!
