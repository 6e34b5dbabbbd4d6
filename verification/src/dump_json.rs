//! What a file holds, as JSON.
use vstd::prelude::*;
use vstd::string::*;
use crate::dump::{is_wanted, key_wanted, keys_view, JSON_ARRAY_LIMIT};
use crate::file::{pairs_view, string_value, FileView, GgufFile};
use crate::json::{
    jsons_view, lemma_json_array_view, lemma_json_object_view, members_view, push_member, value_json,
    value_to_json, Json, JsonView,
};
use crate::tensor::{element_count, TensorInfo, TensorView};
use crate::text::{hex, owned, push_hex};
use crate::types::{ggml_type_name, gguf_type_name, type_of_value, ValueView};

verus! {

/// A string, or nothing.
pub open spec fn optional_json(s: Option<Seq<char>>) -> JsonView {
    match s {
        Some(x) => JsonView::String(x),
        None => JsonView::Null,
    }
}

/// The head of a file.
pub open spec fn header_json(f: FileView) -> JsonView {
    JsonView::Object(
        seq![
            ("magic"@, JsonView::String(hex(f.header.magic as nat, 8))),
            ("version"@, JsonView::U64(f.header.version as u64)),
            ("tensors"@, JsonView::U64(f.header.n_tensors)),
            ("kv_pairs"@, JsonView::U64(f.header.n_kv)),
        ],
    )
}

/// A pair: its type and its value.
pub open spec fn pair_json(v: ValueView) -> JsonView {
    JsonView::Object(
        seq![
            ("type"@, JsonView::String(gguf_type_name(type_of_value(v)))),
            ("value"@, value_json(v, Some(JSON_ARRAY_LIMIT))),
        ],
    )
}

/// The first `n` pairs, those of them that are wanted, in the order of the file. Of members with
/// the same name the last one holds.
pub open spec fn pairs_json(
    kv: Seq<(Seq<char>, ValueView)>,
    keys: Seq<Seq<char>>,
    n: nat,
) -> Seq<(Seq<char>, JsonView)>
    decreases n,
{
    if n == 0 {
        Seq::empty()
    } else {
        let rest = pairs_json(kv, keys, (n - 1) as nat);
        if key_wanted(keys, kv[n - 1].0) {
            rest.push((kv[n - 1].0, pair_json(kv[n - 1].1)))
        } else {
            rest
        }
    }
}

/// A tensor description.
pub open spec fn tensor_json(t: TensorView) -> JsonView {
    JsonView::Object(
        seq![
            ("name"@, JsonView::String(t.name)),
            ("shape"@, JsonView::Array(Seq::new(t.shape.len(), |i: int| JsonView::U64(t.shape[i])))),
            ("dtype"@, JsonView::String(ggml_type_name(t.dtype))),
            ("offset"@, JsonView::U64(t.offset)),
            ("num_elements"@, JsonView::U64(element_count(t))),
        ],
    )
}

/// The whole file.
pub open spec fn file_json(f: FileView, path: Seq<char>, keys: Seq<Seq<char>>) -> JsonView {
    JsonView::Object(
        seq![
            ("file"@, JsonView::String(path)),
            ("size"@, JsonView::U64(f.file_size)),
            ("header"@, header_json(f)),
            ("alignment"@, JsonView::U64(f.alignment as u64)),
            ("data_offset"@, JsonView::U64(f.data_offset)),
            ("architecture"@, optional_json(string_value(f.kv, "general.architecture"@))),
            ("model_name"@, optional_json(string_value(f.kv, "general.name"@))),
            ("kv"@, JsonView::Object(pairs_json(f.kv, keys, f.kv.len()))),
            (
                "tensors"@,
                JsonView::Array(Seq::new(f.tensors.len(), |i: int| tensor_json(f.tensors[i]))),
            ),
        ],
    )
}

fn object(members: Vec<(String, Json)>) -> (r: Json)
    ensures
        r@ == JsonView::Object(members_view(members@)),
{
    proof {
        lemma_json_object_view(members);
    }
    Json::Object(members)
}

fn string(s: &str) -> (r: Json)
    ensures
        r@ == JsonView::String(s@),
{
    Json::String(owned(s))
}

fn optional(s: Option<&str>) -> (r: Json)
    ensures
        r@ == (match s {
            Some(x) => JsonView::String(x@),
            None => JsonView::Null,
        }),
{
    match s {
        Some(x) => string(x),
        None => Json::Null,
    }
}

fn json_of_header(file: &GgufFile) -> (r: Json)
    ensures
        r@ == header_json(file@),
{
    let mut magic = String::new();
    push_hex(&mut magic, file.header.magic as u64, 8);
    assert(magic@ =~= hex(file.header.magic as nat, 8));
    let mut m: Vec<(String, Json)> = Vec::new();
    push_member(&mut m, "magic", Json::String(magic));
    push_member(&mut m, "version", Json::U64(file.header.version as u64));
    push_member(&mut m, "tensors", Json::U64(file.header.n_tensors));
    push_member(&mut m, "kv_pairs", Json::U64(file.header.n_kv));
    assert(members_view(m@) =~= header_json(file@)->Object_0);
    object(m)
}

fn json_of_tensor(t: &TensorInfo) -> (r: Json)
    ensures
        r@ == tensor_json(t@),
{
    let mut dims: Vec<Json> = Vec::new();
    let mut i: usize = 0;
    while i < t.shape.len()
        invariant
            i <= t.shape@.len(),
            jsons_view(dims@) == Seq::new(i as nat, |k: int| JsonView::U64(t.shape@[k])),
        decreases t.shape@.len() - i,
    {
        let ghost before = jsons_view(dims@);
        dims.push(Json::U64(t.shape[i]));
        i += 1;
        assert(jsons_view(dims@) =~= before.push(JsonView::U64(t.shape@[i - 1])));
        assert(jsons_view(dims@) =~= Seq::new(i as nat, |k: int| JsonView::U64(t.shape@[k])));
    }
    proof {
        lemma_json_array_view(dims);
    }
    let ghost shape = Json::Array(dims)@;
    let mut m: Vec<(String, Json)> = Vec::new();
    push_member(&mut m, "name", string(t.name.as_str()));
    push_member(&mut m, "shape", Json::Array(dims));
    push_member(&mut m, "dtype", Json::String(t.dtype.to_string()));
    push_member(&mut m, "offset", Json::U64(t.offset));
    push_member(&mut m, "num_elements", Json::U64(t.num_elements()));
    proof {
        let want = tensor_json(t@)->Object_0;
        assert(want[1].1->Array_0 =~= shape->Array_0);
        assert(members_view(m@) =~= want);
    }
    object(m)
}

/// The pairs that are wanted.
fn build_kv_json(file: &GgufFile, keys: &Vec<String>) -> (r: Json)
    ensures
        r@ == JsonView::Object(pairs_json(file@.kv, keys_view(keys@), file@.kv.len())),
{
    let ghost kv = file@.kv;
    let mut m: Vec<(String, Json)> = Vec::new();
    let mut i: usize = 0;
    assert(members_view(m@) =~= Seq::<(Seq<char>, JsonView)>::empty());
    while i < file.kv.len()
        invariant
            i <= file.kv@.len(),
            kv == pairs_view(file.kv@),
            members_view(m@) == pairs_json(kv, keys_view(keys@), i as nat),
        decreases file.kv@.len() - i,
    {
        let key = &file.kv[i].0;
        let value = &file.kv[i].1;
        if is_wanted(keys, key) {
            let mut entry: Vec<(String, Json)> = Vec::new();
            push_member(&mut entry, "type", string(value.value_type().name()));
            push_member(&mut entry, "value", value_to_json(value, Some(JSON_ARRAY_LIMIT)));
            assert(members_view(entry@) =~= pair_json(value@)->Object_0);
            push_member(&mut m, key.as_str(), object(entry));
        }
        i += 1;
    }
    object(m)
}

/// What a file holds, as JSON: its head, the pairs with one of `keys` (or all where there are
/// none), and its tensors.
pub fn print_json(file: &GgufFile, path: &str, keys: &Vec<String>) -> (r: Json)
    ensures
        r@ == file_json(file@, path@, keys_view(keys@)),
{
    let mut tensors: Vec<Json> = Vec::new();
    let mut i: usize = 0;
    while i < file.tensors.len()
        invariant
            i <= file.tensors@.len(),
            jsons_view(tensors@) == Seq::new(i as nat, |k: int| tensor_json(file@.tensors[k])),
        decreases file.tensors@.len() - i,
    {
        let ghost before = jsons_view(tensors@);
        tensors.push(json_of_tensor(&file.tensors[i]));
        assert(file@.tensors[i as int] == file.tensors@[i as int]@);
        i += 1;
        assert(jsons_view(tensors@) =~= before.push(tensor_json(file@.tensors[i - 1])));
        assert(jsons_view(tensors@) =~= Seq::new(
            i as nat,
            |k: int| tensor_json(file@.tensors[k]),
        ));
    }
    proof {
        lemma_json_array_view(tensors);
    }
    let ghost table = Json::Array(tensors)@;
    let mut m: Vec<(String, Json)> = Vec::new();
    push_member(&mut m, "file", string(path));
    push_member(&mut m, "size", Json::U64(file.file_size));
    push_member(&mut m, "header", json_of_header(file));
    push_member(&mut m, "alignment", Json::U64(file.alignment as u64));
    push_member(&mut m, "data_offset", Json::U64(file.data_offset));
    push_member(&mut m, "architecture", optional(file.architecture()));
    push_member(&mut m, "model_name", optional(file.model_name()));
    push_member(&mut m, "kv", build_kv_json(file, keys));
    push_member(&mut m, "tensors", Json::Array(tensors));
    proof {
        let want = file_json(file@, path@, keys_view(keys@))->Object_0;
        assert(want[8].1->Array_0 =~= table->Array_0);
        assert(members_view(m@) =~= want);
    }
    object(m)
}

} // verus!
