//! Questions about a file's vocabulary.
use vstd::prelude::*;
use crate::file::{first_value, FileView, GgufFile};
use crate::text::{contains, has_part, owned, same};
use crate::types::{lemma_array_view, values_view, GgufArray, ValueView};

verus! {

/// The elements of the array under a key; none where there is no array.
pub open spec fn array_under(f: FileView, key: Seq<char>) -> Seq<ValueView> {
    match first_value(f.kv, key) {
        Some(ValueView::Array(_, data)) => data,
        _ => Seq::empty(),
    }
}

/// The string with a given place in a list.
pub open spec fn string_in(data: Seq<ValueView>, i: int) -> Option<Seq<char>> {
    if 0 <= i < data.len() {
        match data[i] {
            ValueView::String(s) => Some(s),
            _ => None,
        }
    } else {
        None
    }
}

/// The places below `n` at which a string stands in a list.
pub open spec fn places_of(data: Seq<ValueView>, s: Seq<char>, n: nat) -> Seq<usize>
    decreases n,
{
    if n == 0 {
        Seq::empty()
    } else {
        let rest = places_of(data, s, (n - 1) as nat);
        if string_in(data, n - 1) == Some(s) {
            rest.push((n - 1) as usize)
        } else {
            rest
        }
    }
}

/// The strings with a place below `n` in a list that hold a part, with their places.
pub open spec fn strings_with(data: Seq<ValueView>, part: Seq<char>, n: nat) -> Seq<
    (usize, Seq<char>),
>
    decreases n,
{
    if n == 0 {
        Seq::empty()
    } else {
        let rest = strings_with(data, part, (n - 1) as nat);
        match string_in(data, n - 1) {
            Some(s) => if has_part(s, part) {
                rest.push(((n - 1) as usize, s))
            } else {
                rest
            },
            None => rest,
        }
    }
}

fn array_at<'a>(file: &'a GgufFile, key: &str) -> (r: Option<&'a GgufArray>)
    ensures
        match r {
            Some(a) => values_view(a.data@) == array_under(file@, key@),
            None => array_under(file@, key@) == Seq::<ValueView>::empty(),
        },
{
    match file.get(key) {
        Some(v) => {
            let a = v.as_array();
            proof {
                if a is Some {
                    lemma_array_view(*a->Some_0);
                }
            }
            a
        },
        None => None,
    }
}

/// The token with a given id.
pub fn token_by_id(file: &GgufFile, id: usize) -> (r: Option<String>)
    ensures
        match string_in(array_under(file@, "tokenizer.ggml.tokens"@), id as int) {
            Some(s) => r is Some && r->Some_0@ == s,
            None => r is None,
        },
{
    match array_at(file, "tokenizer.ggml.tokens") {
        Some(a) => if id < a.data.len() {
            assert(values_view(a.data@)[id as int] == a.data@[id as int]@);
            match a.data[id].as_str() {
                Some(s) => Some(owned(s)),
                None => None,
            }
        } else {
            None
        },
        None => None,
    }
}

/// The ids of the tokens that are the string `s`.
pub fn ids_by_token(file: &GgufFile, s: &str) -> (r: Vec<usize>)
    ensures
        ({
            let data = array_under(file@, "tokenizer.ggml.tokens"@);
            r@ == places_of(data, s@, data.len())
        }),
{
    let mut r: Vec<usize> = Vec::new();
    let a = match array_at(file, "tokenizer.ggml.tokens") {
        Some(a) => a,
        None => return r,
    };
    let ghost data = values_view(a.data@);
    let mut i: usize = 0;
    while i < a.data.len()
        invariant
            i <= a.data@.len(),
            data == values_view(a.data@),
            r@ == places_of(data, s@, i as nat),
        decreases a.data@.len() - i,
    {
        assert(data[i as int] == a.data@[i as int]@);
        match a.data[i].as_str() {
            Some(t) => if same(t, s) {
                r.push(i);
            },
            None => {},
        }
        i += 1;
    }
    r
}

/// The views of rules with their places.
pub open spec fn rules_view(s: Seq<(usize, String)>) -> Seq<(usize, Seq<char>)> {
    Seq::new(s.len(), |i: int| (s[i].0, s[i].1@))
}

/// The merge rules that hold the text `part`, with their ranks.
pub fn merges_containing(file: &GgufFile, part: &str) -> (r: Vec<(usize, String)>)
    ensures
        ({
            let data = array_under(file@, "tokenizer.ggml.merges"@);
            rules_view(r@) == strings_with(data, part@, data.len())
        }),
{
    let mut r: Vec<(usize, String)> = Vec::new();
    assert(rules_view(r@) =~= Seq::<(usize, Seq<char>)>::empty());
    let a = match array_at(file, "tokenizer.ggml.merges") {
        Some(a) => a,
        None => return r,
    };
    let ghost data = values_view(a.data@);
    let mut i: usize = 0;
    while i < a.data.len()
        invariant
            i <= a.data@.len(),
            data == values_view(a.data@),
            rules_view(r@) == strings_with(data, part@, i as nat),
        decreases a.data@.len() - i,
    {
        assert(data[i as int] == a.data@[i as int]@);
        match a.data[i].as_str() {
            Some(t) => if contains(t, part) {
                let ghost before = rules_view(r@);
                r.push((i, owned(t)));
                assert(rules_view(r@) =~= before.push((i, t@)));
            },
            None => {},
        }
        i += 1;
    }
    r
}

} // verus!
