//! What the texts and the JSON form of values say about them.
use vstd::prelude::*;
use vstd::string::*;
use crate::dump_json::{file_json, header_json, pair_json, pairs_json, tensor_json};
use crate::file::FileView;
use crate::float::{div_half_even, excess_bits, f64_of_f32, f64_of_int, round_to_f64};
use crate::float_laws::lemma_natural_pattern;
use crate::infer::model::hparams_laws::{first_pair_counts, is_integer, silent, states};
use crate::json::{value_json, JsonView};
use crate::tensor::element_count;
use crate::text::{dec, dec_int, hex};
use crate::types::{
    float_piece, ggml_type_name, gguf_type_name, joined_text, lemma_small_integer_unique,
    small_integer, type_of_value, value_text, GgufType, PieceView, ValueView,
};

verus! {

// ---------------------------------------------------------------------------------------------
// JSON
// ---------------------------------------------------------------------------------------------

/// The object has a member with the name and the value.
pub open spec fn has_member(j: JsonView, name: Seq<char>, v: JsonView) -> bool {
    j matches JsonView::Object(members) && exists|i: int|
        0 <= i < members.len() && #[trigger] members[i] == (name, v)
}

proof fn lemma_member(j: JsonView, i: int)
    requires
        j is Object,
        0 <= i < j->Object_0.len(),
    ensures
        has_member(j, j->Object_0[i].0, j->Object_0[i].1),
{
    let members = j->Object_0;
    assert(members[i] == (members[i].0, members[i].1));
}

/// Integers keep their values in JSON, truth values and strings are themselves, and a number that
/// is not finite is nothing.
pub proof fn json_keeps_values(v: ValueView, n: int, limit: Option<usize>)
    ensures
        is_integer(v, n) && (v is U8 || v is U16 || v is U32 || v is U64) ==> value_json(v, limit)
            == JsonView::U64(n as u64) && 0 <= n <= u64::MAX,
        is_integer(v, n) && (v is I8 || v is I16 || v is I32 || v is I64) ==> value_json(v, limit)
            == JsonView::I64(n as i64) && i64::MIN <= n <= i64::MAX,
        v matches ValueView::Bool(b) ==> value_json(v, limit) == JsonView::Bool(b),
        v matches ValueView::String(s) ==> value_json(v, limit) == JsonView::String(s),
        v matches ValueView::F64(b) ==> value_json(v, limit) == if b % 0x8000_0000_0000_0000
            < 0x7ff0_0000_0000_0000 {
            JsonView::Float(b)
        } else {
            JsonView::Null
        },
        v matches ValueView::F32(b) ==> value_json(v, limit) == value_json(
            ValueView::F64(f64_of_f32(b)),
            None,
        ),
{
    if let ValueView::F64(b) = v {
        let e = b as nat / 0x10_0000_0000_0000;
        assert(e % 0x800 == 0x7ff <==> b % 0x8000_0000_0000_0000 >= 0x7ff0_0000_0000_0000);
    }
}

/// An array in JSON tells its element type, its length and its elements from the first on; where
/// there are more than the limit it holds as many as the limit and says that it is cut.
pub proof fn json_arrays_tell_their_length(
    ty: GgufType,
    data: Seq<ValueView>,
    limit: Option<usize>,
)
    requires
        data.len() <= u64::MAX,
    ensures
        ({
            let j = value_json(ValueView::Array(ty, data), limit);
            let cut = limit matches Some(l) && l < data.len();
            &&& has_member(j, "element_type"@, JsonView::String(gguf_type_name(ty)))
            &&& has_member(j, "count"@, JsonView::U64(data.len() as u64))
            &&& j->Object_0[2].0 == "value"@
            &&& j->Object_0[2].1 is Array
            &&& cut ==> j->Object_0[2].1->Array_0.len() == limit->Some_0
            &&& !cut ==> j->Object_0[2].1->Array_0.len() == data.len()
            &&& forall|i: int|
                0 <= i < j->Object_0[2].1->Array_0.len()
                    ==> #[trigger] j->Object_0[2].1->Array_0[i] == value_json(data[i], None)
            &&& cut ==> has_member(j, "truncated"@, JsonView::Bool(true)) && has_member(
                j,
                "total"@,
                JsonView::U64(data.len() as u64),
            )
            &&& !cut ==> j->Object_0.len() == 3
        }),
{
    let j = value_json(ValueView::Array(ty, data), limit);
    lemma_member(j, 0);
    lemma_member(j, 1);
    if limit matches Some(l) && l < data.len() {
        lemma_member(j, 3);
        lemma_member(j, 4);
    }
}

/// The JSON form of a file tells what the file holds under the names for it.
pub proof fn json_tells_the_file(f: FileView, path: Seq<char>, keys: Seq<Seq<char>>)
    ensures
        has_member(file_json(f, path, keys), "file"@, JsonView::String(path)),
        has_member(file_json(f, path, keys), "size"@, JsonView::U64(f.file_size)),
        has_member(file_json(f, path, keys), "alignment"@, JsonView::U64(f.alignment as u64)),
        has_member(file_json(f, path, keys), "data_offset"@, JsonView::U64(f.data_offset)),
        has_member(file_json(f, path, keys), "header"@, header_json(f)),
        has_member(header_json(f), "magic"@, JsonView::String(hex(f.header.magic as nat, 8))),
        has_member(header_json(f), "version"@, JsonView::U64(f.header.version as u64)),
        has_member(header_json(f), "tensors"@, JsonView::U64(f.header.n_tensors)),
        has_member(header_json(f), "kv_pairs"@, JsonView::U64(f.header.n_kv)),
        forall|s: Seq<char>|
            states(f.kv, "general.architecture"@, ValueView::String(s)) ==> has_member(
                file_json(f, path, keys),
                "architecture"@,
                JsonView::String(s),
            ),
        silent(f.kv, "general.architecture"@) ==> has_member(
            file_json(f, path, keys),
            "architecture"@,
            JsonView::Null,
        ),
        forall|s: Seq<char>|
            states(f.kv, "general.name"@, ValueView::String(s)) ==> has_member(
                file_json(f, path, keys),
                "model_name"@,
                JsonView::String(s),
            ),
        silent(f.kv, "general.name"@) ==> has_member(
            file_json(f, path, keys),
            "model_name"@,
            JsonView::Null,
        ),
{
    let j = file_json(f, path, keys);
    lemma_member(j, 0);
    lemma_member(j, 1);
    lemma_member(j, 2);
    lemma_member(j, 3);
    lemma_member(j, 4);
    lemma_member(j, 5);
    lemma_member(j, 6);
    lemma_member(header_json(f), 0);
    lemma_member(header_json(f), 1);
    lemma_member(header_json(f), 2);
    lemma_member(header_json(f), 3);
    first_pair_counts(f.kv, "general.architecture"@);
    first_pair_counts(f.kv, "general.name"@);
}

/// All tensors are in the JSON form of a file, in their order, each with what it is described by.
pub proof fn json_tells_the_tensors(f: FileView, path: Seq<char>, keys: Seq<Seq<char>>, i: int)
    requires
        0 <= i < f.tensors.len(),
    ensures
        file_json(f, path, keys)->Object_0[8].0 == "tensors"@,
        file_json(f, path, keys)->Object_0[8].1->Array_0.len() == f.tensors.len(),
        ({
            let t = f.tensors[i];
            let j = file_json(f, path, keys)->Object_0[8].1->Array_0[i];
            &&& has_member(j, "name"@, JsonView::String(t.name))
            &&& has_member(j, "dtype"@, JsonView::String(ggml_type_name(t.dtype)))
            &&& has_member(j, "offset"@, JsonView::U64(t.offset))
            &&& has_member(j, "num_elements"@, JsonView::U64(element_count(t)))
            &&& j->Object_0[1].0 == "shape"@
            &&& j->Object_0[1].1->Array_0.len() == t.shape.len()
            &&& forall|k: int|
                0 <= k < t.shape.len() ==> #[trigger] j->Object_0[1].1->Array_0[k] == JsonView::U64(
                    t.shape[k],
                )
        }),
{
    let j = tensor_json(f.tensors[i]);
    lemma_member(j, 0);
    lemma_member(j, 2);
    lemma_member(j, 3);
    lemma_member(j, 4);
}

/// The pairs in the JSON form are those that are wanted, each with its type and its value.
pub proof fn json_tells_the_wanted_pairs(
    kv: Seq<(Seq<char>, ValueView)>,
    keys: Seq<Seq<char>>,
    n: nat,
    i: int,
)
    requires
        n <= kv.len(),
    ensures
        0 <= i < n && (keys.len() == 0 || keys.contains(kv[i].0)) ==> pairs_json(
            kv,
            keys,
            n,
        ).contains((kv[i].0, pair_json(kv[i].1))),
        forall|k: int|
            0 <= k < pairs_json(kv, keys, n).len() ==> keys.len() == 0 || keys.contains(
                (#[trigger] pairs_json(kv, keys, n)[k]).0,
            ),
        keys.len() == 0 ==> pairs_json(kv, keys, n).len() == n,
        0 <= i < kv.len() ==> has_member(
            pair_json(kv[i].1),
            "type"@,
            JsonView::String(gguf_type_name(type_of_value(kv[i].1))),
        ) && has_member(pair_json(kv[i].1), "value"@, value_json(kv[i].1, Some(1000))),
    decreases n,
{
    if n > 0 {
        let rest = pairs_json(kv, keys, (n - 1) as nat);
        let all = pairs_json(kv, keys, n);
        json_tells_the_wanted_pairs(kv, keys, (n - 1) as nat, i);
        let want = (kv[i].0, pair_json(kv[i].1));
        if 0 <= i < n - 1 && rest.contains(want) {
            let k = choose|k: int| 0 <= k < rest.len() && rest[k] == want;
            assert(all[k] == want);
        }
        if i == n - 1 && (keys.len() == 0 || keys.contains(kv[i].0)) {
            assert(all[rest.len() as int] == want);
        }
        assert forall|k: int| 0 <= k < all.len() implies keys.len() == 0 || keys.contains(
            (#[trigger] all[k]).0,
        ) by {
            if k < rest.len() {
                assert(all[k] == rest[k]);
            }
        }
    }
    if 0 <= i < kv.len() {
        lemma_member(pair_json(kv[i].1), 0);
        lemma_member(pair_json(kv[i].1), 1);
    }
}

// ---------------------------------------------------------------------------------------------
// Texts
// ---------------------------------------------------------------------------------------------

/// The word for the type of an integer.
pub open spec fn type_word(v: ValueView) -> Seq<char> {
    match v {
        ValueView::U8(_) => "U8"@,
        ValueView::U16(_) => "U16"@,
        ValueView::U32(_) => "U32"@,
        ValueView::U64(_) => "U64"@,
        ValueView::I8(_) => "I8"@,
        ValueView::I16(_) => "I16"@,
        ValueView::I32(_) => "I32"@,
        _ => "I64"@,
    }
}

/// The text of an integer is its type's word and its number in brackets; a string stands in
/// quotation marks, a truth value is its word.
pub proof fn texts_tell_type_and_number(v: ValueView, n: int)
    ensures
        is_integer(v, n) ==> value_text(v) == seq![
            PieceView::Text(type_word(v) + "("@ + dec_int(n) + ")"@),
        ],
        v matches ValueView::String(s) ==> value_text(v) == seq![
            PieceView::Text("\""@ + s + "\""@),
        ],
        value_text(ValueView::Bool(true)) == seq![PieceView::Text("true"@)],
        value_text(ValueView::Bool(false)) == seq![PieceView::Text("false"@)],
        v matches ValueView::F32(b) ==> value_text(v) == value_text(ValueView::F64(f64_of_f32(b))),
{
}

/// A long array shows its length and what the array of its first five elements shows; one of up to
/// five shows all of them.
pub proof fn long_arrays_show_the_first_five(ty: GgufType, data: Seq<ValueView>)
    requires
        data.len() > 5,
    ensures
        ({
            let whole = value_text(ValueView::Array(ty, data));
            let first = value_text(ValueView::Array(ty, data.take(5)));
            &&& whole[0] == PieceView::Text("["@ + dec(data.len()) + " elements] (first 5: "@)
            &&& first[0] == PieceView::Text("["@)
            &&& whole.last() == PieceView::Text(")"@)
            &&& first.last() == PieceView::Text("]"@)
            &&& whole.drop_first().drop_last() == first.drop_first().drop_last()
        }),
{
    let whole = value_text(ValueView::Array(ty, data));
    let first = value_text(ValueView::Array(ty, data.take(5)));
    lemma_same_front(data, 5);
    assert(whole.drop_first().drop_last() =~= joined_text(data, 5));
    assert(first.drop_first().drop_last() =~= joined_text(data.take(5), 5));
}

proof fn lemma_same_front(data: Seq<ValueView>, k: nat)
    requires
        k <= 5 <= data.len(),
    ensures
        joined_text(data, k) == joined_text(data.take(5), k),
    decreases k,
{
    if k > 0 {
        lemma_same_front(data, (k - 1) as nat);
        assert(data.take(5)[k - 1] == data[k - 1]);
        assert(data.take(5)[0] == data[0]);
    }
}

/// A short array shows its elements in brackets with commas between them.
pub proof fn short_arrays_show_all(ty: GgufType, a: ValueView, b: ValueView)
    ensures
        value_text(ValueView::Array(ty, Seq::empty())) == seq![
            PieceView::Text("["@),
            PieceView::Text("]"@),
        ],
        value_text(ValueView::Array(ty, seq![a])) == seq![PieceView::Text("["@)] + value_text(a)
            + seq![PieceView::Text("]"@)],
        value_text(ValueView::Array(ty, seq![a, b])) == seq![PieceView::Text("["@)] + value_text(a)
            + seq![PieceView::Text(", "@)] + value_text(b) + seq![PieceView::Text("]"@)],
{
    let none = Seq::<ValueView>::empty();
    assert(value_text(ValueView::Array(ty, none)) =~= seq![
        PieceView::Text("["@),
        PieceView::Text("]"@),
    ]);
    let one = seq![a];
    assert(joined_text(one, 1) == value_text(a));
    let two = seq![a, b];
    assert(joined_text(two, 1) == value_text(a));
    assert(joined_text(two, 2) == joined_text(two, 1) + seq![PieceView::Text(", "@)] + value_text(
        b,
    ));
    assert(value_text(ValueView::Array(ty, two)) =~= seq![PieceView::Text("["@)] + value_text(a)
        + seq![PieceView::Text(", "@)] + value_text(b) + seq![PieceView::Text("]"@)]);
}

/// The text of a number that is no number or infinite is a word; an integer is shown with one
/// nought behind the point.
pub proof fn special_numbers_are_words(b: u64, n: u32)
    ensures
        b % 0x8000_0000_0000_0000 > 0x7ff0_0000_0000_0000 ==> float_piece(b) == PieceView::Text(
            "NaN"@,
        ),
        float_piece(0x7ff0_0000_0000_0000) == PieceView::Text("+Inf"@),
        float_piece(0xfff0_0000_0000_0000) == PieceView::Text("-Inf"@),
        float_piece(f64_of_int(n as int)) == PieceView::Text(dec(n as nat) + ".0"@),
{
    let e = b as nat / 0x10_0000_0000_0000;
    let m = b as nat % 0x10_0000_0000_0000;
    if b % 0x8000_0000_0000_0000 > 0x7ff0_0000_0000_0000 {
        assert(e % 0x800 == 0x7ff);
        assert(m != 0);
    }
    let c = f64_of_int(n as int);
    lemma_natural_pattern(n);
    lemma_exact(n as nat);
    assert(small_integer(c, n as nat));
    let k = choose|k: nat| small_integer(c, k);
    lemma_small_integer_unique(c, n as nat, k);
    reveal_strlit("");
    assert(""@ + dec(n as nat) + ".0"@ =~= dec(n as nat) + ".0"@);
}

proof fn lemma_exact(n: nat)
    requires
        n < 0x1_0000_0000,
    ensures
        round_to_f64(n) == n,
{
    vstd::arithmetic::power2::lemma2_to64();
    assert(excess_bits(n) == 0);
    assert(div_half_even(n, 1) == n);
}

} // verus!
