//! What the reports show of a file, and what a console makes of what is typed.
use vstd::prelude::*;
use vstd::arithmetic::power2::*;
use vstd::string::*;
use crate::console::{
    checked_prompt, greedy_config, infer_exit_code, loaded_text, ready_text,
    sampler_config, status_of, step_of, without_breaks, StepView,
};
use crate::dump::{
    cut, data_text, dump_exit_code, pair_line, pair_lines, pair_limit, report_lines, shape_text,
    summary_lines, table_head, table_lines, tensor_limit, tensor_line, text_line, OptionsView,
};
use crate::error::{bytes_left, error_text, ErrorView, GgufResult};
use crate::file::FileView;
use crate::float::{div_half_even, excess_bits, round_to_f64};
use crate::float_laws::distance;
use crate::infer::model::hparams::HParamsView;
use crate::infer::model::hparams_laws::{first_pair_counts, silent, states};
use crate::infer::sampler::SamplerConfig;
use crate::lookup::{array_under, places_of, string_in, strings_with};
use crate::sizes::{
    grouped, megabytes_text, size_text, three_digits, unit_bytes, unit_name, unit_of, with_point,
};
use crate::tensor::{element_count, TensorView};
use crate::text::{
    dec, dec_int, digit_char, has_part, hex, left_column, listed, right_column, trimmed,
};
use crate::text_laws::{decimal_reads_back, number_of};
use crate::types::{
    ggml_type_name, gguf_type_name, type_of_value, value_text, GgmlType, GgufType, PieceView,
    ValueView,
};

verus! {

// ---------------------------------------------------------------------------------------------
// Sizes
// ---------------------------------------------------------------------------------------------

/// Rounding gives the nearest multiple, the even one where two are as near.
pub proof fn rounding_takes_the_nearest(a: nat, g: nat)
    requires
        g > 0,
    ensures
        2 * distance((div_half_even(a, g) * g) as int, a as int) <= g,
        2 * distance((div_half_even(a, g) * g) as int, a as int) == g ==> div_half_even(a, g) % 2
            == 0,
{
    let (q, r) = ((a / g) as int, (a % g) as int);
    vstd::arithmetic::div_mod::lemma_fundamental_div_mod(a as int, g as int);
    assert(q * g == g * q) by (nonlinear_arith);
    assert((q + 1) * g == q * g + g) by (nonlinear_arith);
}

/// Every unit is 1024 of the one before it, and their names go from bytes up.
pub proof fn units_grow_by_1024(i: int)
    ensures
        unit_bytes(0) == 1,
        0 <= i < 5 ==> unit_bytes(i + 1) == 1024 * unit_bytes(i),
        unit_name(0) == "B"@,
        unit_name(1) == "KB"@,
        unit_name(2) == "MB"@,
        unit_name(3) == "GB"@,
        unit_name(4) == "TB"@,
        unit_name(5) == "PB"@,
{
}

/// A size is shown in the unit of which it has at least one and, below the largest, fewer than
/// 1024.
pub proof fn unit_fits_the_size(size: nat)
    ensures
        0 <= unit_of(size) <= 5,
        size > 0 ==> unit_bytes(unit_of(size)) <= size,
        unit_of(size) < 5 ==> size < 1024 * unit_bytes(unit_of(size)),
{
}

/// A number with a point holds all its digits: those before the point are its whole part and those
/// behind it the rest.
pub proof fn point_stands_before_the_rest(n: nat)
    ensures
        with_point(n, 1) == dec(n / 10) + "."@ + seq![digit_char((n % 10) as int)],
        with_point(n, 2).len() == dec(n / 100).len() + 3,
        with_point(n, 2).take(dec(n / 100).len() as int) == dec(n / 100),
        with_point(n, 2)[dec(n / 100).len() as int] == '.',
        number_of(with_point(n, 2).skip(dec(n / 100).len() as int + 1), 10) == n % 100,
{
    reveal_strlit(".");
    let l = dec(n / 100).len() as int;
    let s = with_point(n, 2);
    assert(s.take(l) =~= dec(n / 100));
    let tail = seq![digit_char((n / 10 % 10) as int), digit_char((n % 10) as int)];
    assert(s.skip(l + 1) =~= tail);
    assert(tail.drop_last() =~= seq![digit_char((n / 10 % 10) as int)]);
    assert(tail.drop_last().drop_last() =~= Seq::<char>::empty());
    reveal_with_fuel(number_of, 3);
}

/// Fewer than 1024 bytes are shown as they are, and `k` whole units as `k` with noughts behind the
/// point.
pub proof fn whole_units_are_shown_whole(k: nat, i: int)
    requires
        1 <= k < 1024,
        1 <= i <= 4,
    ensures
        size_text(k as u64, 1) == dec(k) + " B"@,
        size_text(k as u64, 2) == dec(k) + " B"@,
        size_text((k * unit_bytes(i)) as u64, 1) == dec(k) + "."@ + seq!['0'] + " "@ + unit_name(i),
        size_text((k * unit_bytes(i)) as u64, 2) == dec(k) + "."@ + seq!['0', '0'] + " "@
            + unit_name(i),
{
    lemma2_to64();
    let u = unit_bytes(i);
    let size = k * u;
    assert(u <= size < 1024 * u) by (nonlinear_arith)
        requires
            size == k * u,
            1 <= k < 1024,
            u > 0,
    ;
    assert(excess_bits(size) == 0);
    assert(excess_bits(k) == 0);
    assert(div_half_even(k, 1) == k);
    assert(div_half_even(size, 1) == size);
    assert(round_to_f64(size) == size);
    assert(round_to_f64(k) == k);
    assert(unit_of(size) == i);
    lemma_whole(k, u, 10);
    lemma_whole(k, u, 100);
    assert((k * 10) / 10 == k && (k * 10) % 10 == 0);
    assert((k * 100) / 100 == k && (k * 100) % 10 == 0 && (k * 100) / 10 % 10 == 0);
    assert(with_point(k * 10, 1) =~= dec(k) + "."@ + seq!['0']);
    assert(with_point(k * 100, 2) =~= dec(k) + "."@ + seq!['0', '0']);
}

proof fn lemma_whole(k: nat, u: nat, t: nat)
    requires
        u > 0,
    ensures
        div_half_even((k * u) * t, u) == k * t,
{
    let n = (k * u) * t;
    assert(n == (k * t) * u) by (nonlinear_arith)
        requires
            n == (k * u) * t,
    ;
    vstd::arithmetic::div_mod::lemma_fundamental_div_mod_converse(
        n as int,
        u as int,
        (k * t) as int,
        0,
    );
}

/// `k` whole megabytes are shown as `k` with a nought behind the point.
pub proof fn whole_megabytes_are_shown_whole(k: nat)
    requires
        k < 0x1_0000_0000,
    ensures
        megabytes_text((k * 0x10_0000) as u64) == dec(k) + "."@ + seq!['0'],
{
    lemma2_to64();
    let size = k * 0x10_0000;
    assert(excess_bits(size) == 0);
    assert(div_half_even(size, 1) == size);
    assert(round_to_f64(size) == size);
    lemma_whole(k, 0x10_0000, 10);
    assert((k * 10) / 10 == k && (k * 10) % 10 == 0);
    assert(with_point(k * 10, 1) =~= dec(k) + "."@ + seq!['0']);
}

// ---------------------------------------------------------------------------------------------
// Lists
// ---------------------------------------------------------------------------------------------

/// The places of a string are all those at which it stands, in order, and no others.
pub proof fn places_are_all_places(data: Seq<ValueView>, s: Seq<char>, n: nat, i: int)
    requires
        n <= data.len() <= usize::MAX,
    ensures
        0 <= i < n && data[i] == ValueView::String(s) <==> 0 <= i <= usize::MAX && places_of(
            data,
            s,
            n,
        ).contains(i as usize),
        forall|a: int, b: int|
            0 <= a < b < places_of(data, s, n).len() ==> #[trigger] places_of(data, s, n)[a]
                < #[trigger] places_of(data, s, n)[b],
        forall|a: int|
            0 <= a < places_of(data, s, n).len() ==> #[trigger] places_of(data, s, n)[a] < n,
    decreases n,
{
    if n > 0 {
        let rest = places_of(data, s, (n - 1) as nat);
        let all = places_of(data, s, n);
        places_are_all_places(data, s, (n - 1) as nat, i);
        if string_in(data, n - 1) == Some(s) {
            assert(all == rest.push((n - 1) as usize));
            assert(all[rest.len() as int] == n - 1);
            if 0 <= i <= usize::MAX {
                if rest.contains(i as usize) {
                    let k = choose|k: int| 0 <= k < rest.len() && rest[k] == i as usize;
                    assert(all[k] == i as usize);
                }
                if all.contains(i as usize) {
                    let k = choose|k: int| 0 <= k < all.len() && all[k] == i as usize;
                    if k < rest.len() {
                        assert(rest[k] == i as usize);
                    }
                }
            }
        }
    }
}

/// The strings with a part are all those that hold it, each with its place.
pub proof fn strings_with_the_part_are_listed(
    data: Seq<ValueView>,
    part: Seq<char>,
    n: nat,
    i: int,
    s: Seq<char>,
)
    requires
        n <= data.len() <= usize::MAX,
    ensures
        0 <= i < n && data[i] == ValueView::String(s) && has_part(s, part) <==> 0 <= i <= usize::MAX
            && strings_with(data, part, n).contains((i as usize, s)),
    decreases n,
{
    if n > 0 {
        let rest = strings_with(data, part, (n - 1) as nat);
        let all = strings_with(data, part, n);
        strings_with_the_part_are_listed(data, part, (n - 1) as nat, i, s);
        if 0 <= i <= usize::MAX && all != rest {
            let last = ((n - 1) as usize, string_in(data, n - 1)->Some_0);
            assert(all == rest.push(last));
            assert(all[rest.len() as int] == last);
            if rest.contains((i as usize, s)) {
                let k = choose|k: int| 0 <= k < rest.len() && rest[k] == (i as usize, s);
                assert(all[k] == (i as usize, s));
            }
            if all.contains((i as usize, s)) {
                let k = choose|k: int| 0 <= k < all.len() && all[k] == (i as usize, s);
                if k < rest.len() {
                    assert(rest[k] == (i as usize, s));
                }
            }
        }
    }
}

// ---------------------------------------------------------------------------------------------
// The report
// ---------------------------------------------------------------------------------------------

/// A text that fits stays as it is. A longer one is cut to the width that is asked for, and its
/// last character is an ellipsis.
pub proof fn long_texts_are_cut(s: Seq<char>, max: int, i: int)
    requires
        max > 0,
    ensures
        s.len() <= max ==> cut(s, max) == s,
        s.len() > max ==> cut(s, max).len() == max && cut(s, max)[max - 1] == '…',
        s.len() > max && 0 <= i < max - 1 ==> cut(s, max)[i] == s[i],
{
    reveal_strlit("…");
}

/// A tensor without dimensions shows a pair of brackets; any other shows its list.
pub proof fn shapes_are_listed(shape: Seq<u64>)
    ensures
        shape.len() == 0 ==> shape_text(shape) == "()"@,
        shape.len() > 0 ==> shape_text(shape) == listed(shape),
{
}

/// Both programs end alike where a file cannot be read, is of another kind or of another version;
/// no two kinds of failure that have a code of their own share it.
pub proof fn exit_codes_are_told_apart(e: ErrorView)
    ensures
        e is Io ==> dump_exit_code(e) == 1 && infer_exit_code(e) == 1,
        e is InvalidMagic ==> dump_exit_code(e) == 2 && infer_exit_code(e) == 2,
        e is UnsupportedVersion ==> dump_exit_code(e) == 3 && infer_exit_code(e) == 3,
        dump_exit_code(e) == 4 <==> !(e is Io || e is InvalidMagic || e is UnsupportedVersion),
        infer_exit_code(e) == 4 <==> e is UnsupportedArchitecture,
        infer_exit_code(e) == 5 <==> e is TokenizerError,
        infer_exit_code(e) == 6 <==> e is MissingTensor,
        1 <= infer_exit_code(e) <= 7,
{
}

/// Where no keys are asked for and the limit is not reached, every pair has its line, in the order
/// of the file.
pub proof fn all_pairs_are_listed(kv: Seq<(Seq<char>, ValueView)>, limit: nat, i: int, shown: nat)
    requires
        0 <= i <= kv.len(),
        shown + (kv.len() - i) <= limit,
        shown > 0 || i < kv.len(),
    ensures
        pair_lines(kv, Seq::empty(), limit, i, shown) == Seq::new(
            (kv.len() - i) as nat,
            |j: int| pair_line(kv[i + j]),
        ),
    decreases kv.len() - i,
{
    let lines = pair_lines(kv, Seq::empty(), limit, i, shown);
    if i < kv.len() {
        all_pairs_are_listed(kv, limit, i + 1, shown + 1);
        assert(lines =~= Seq::new((kv.len() - i) as nat, |j: int| pair_line(kv[i + j])));
    } else {
        assert(lines =~= Seq::new(0, |j: int| pair_line(kv[i + j])));
    }
}

/// Where no keys are asked for and there are more pairs than the limit, as many as the limit have
/// their lines, and one more line says how many are left.
pub proof fn further_pairs_are_counted(
    kv: Seq<(Seq<char>, ValueView)>,
    limit: nat,
    i: int,
    shown: nat,
)
    requires
        0 <= i == shown <= limit < kv.len(),
        limit > 0,
    ensures
        pair_lines(kv, Seq::empty(), limit, i, shown).len() == limit - i + 1,
        forall|j: int|
            0 <= j < limit - i ==> #[trigger] pair_lines(kv, Seq::empty(), limit, i, shown)[j]
                == pair_line(kv[i + j]),
        pair_lines(kv, Seq::empty(), limit, i, shown)[limit - i] == text_line(
            "  ... ("@ + dec((kv.len() - limit) as nat) + " more keys)"@,
        ),
    decreases kv.len() - i,
{
    if shown < limit {
        further_pairs_are_counted(kv, limit, i + 1, shown + 1);
        let rest = pair_lines(kv, Seq::empty(), limit, i + 1, shown + 1);
        let all = pair_lines(kv, Seq::empty(), limit, i, shown);
        assert(all =~= seq![pair_line(kv[i])] + rest);
        assert forall|j: int| 0 <= j < limit - i implies #[trigger] all[j] == pair_line(
            kv[i + j],
        ) by {
            if j > 0 {
                assert(all[j] == rest[j - 1]);
                assert(rest[j - 1] == pair_line(kv[i + 1 + (j - 1)]));
            }
        }
    }
}

/// Where keys are asked for, no pair with another key has a line, and where none of them is there
/// one line says so.
pub proof fn only_wanted_pairs_are_listed(
    kv: Seq<(Seq<char>, ValueView)>,
    keys: Seq<Seq<char>>,
    limit: nat,
    i: int,
)
    requires
        0 <= i <= kv.len(),
        keys.len() > 0,
        forall|j: int| i <= j < kv.len() ==> !keys.contains((#[trigger] kv[j]).0),
    ensures
        pair_lines(kv, keys, limit, i, 0) == seq![text_line("  (no matching keys)"@)],
    decreases kv.len() - i,
{
    if i < kv.len() {
        assert(!keys.contains(kv[i].0));
        only_wanted_pairs_are_listed(kv, keys, limit, i + 1);
    }
}

/// A pair with a wanted key has its line, in the order of the file, and one with another key is
/// passed over.
pub proof fn wanted_pair_has_its_line(
    kv: Seq<(Seq<char>, ValueView)>,
    keys: Seq<Seq<char>>,
    limit: nat,
    i: int,
    shown: nat,
)
    requires
        0 <= i < kv.len(),
        keys.len() > 0,
        shown < limit,
    ensures
        keys.contains(kv[i].0) ==> pair_lines(kv, keys, limit, i, shown) == seq![pair_line(kv[i])]
            + pair_lines(kv, keys, limit, i + 1, shown + 1),
        !keys.contains(kv[i].0) ==> pair_lines(kv, keys, limit, i, shown) == pair_lines(
            kv,
            keys,
            limit,
            i + 1,
            shown,
        ),
{
}

/// All tensors are listed where that is asked for or there are at most fifty, and fifty otherwise;
/// each has its own line below the head of the table.
pub proof fn tensors_are_listed(f: FileView, all: bool)
    ensures
        all ==> tensor_limit(f.tensors.len(), all) == f.tensors.len(),
        f.tensors.len() <= 50 ==> tensor_limit(f.tensors.len(), all) == f.tensors.len(),
        !all && f.tensors.len() > 50 ==> tensor_limit(f.tensors.len(), all) == 50,
        f.tensors.len() == 0 ==> table_lines(f.tensors, 0).len() == 0,
        f.tensors.len() > 0 ==> table_lines(
            f.tensors,
            tensor_limit(f.tensors.len(), all),
        ).len() == 1 + tensor_limit(f.tensors.len(), all),
{
}

/// A short report is the start of the long one, and asking for keys lifts the limit on pairs.
pub proof fn short_report_is_the_start(f: FileView, path: Seq<char>, o: OptionsView)
    ensures
        o.quiet || o.summary_only ==> report_lines(f, path, o) == summary_lines(f, path),
        summary_lines(f, path).len() <= report_lines(f, path, o).len(),
        report_lines(f, path, o).take(summary_lines(f, path).len() as int) == summary_lines(f, path),
        o.keys.len() == 0 ==> pair_limit(o) == o.max_kv,
        o.keys.len() > 0 ==> pair_limit(o) == usize::MAX,
{
    let s = summary_lines(f, path);
    assert(report_lines(f, path, o).take(s.len() as int) =~= s);
}

// ---------------------------------------------------------------------------------------------
// The console
// ---------------------------------------------------------------------------------------------

/// What is typed ends the dialogue where it is one of the two words for that or there is nothing
/// more, clears it where it is the word for that, is passed over where it is blank, and is answered
/// otherwise, without the white space around it.
pub proof fn typed_lines_are_followed(t: Seq<char>)
    ensures
        step_of(None) is End,
        step_of(Some(t)) is End <==> trimmed(t) == ":quit"@ || trimmed(t) == ":q"@,
        step_of(Some(t)) is Forget <==> trimmed(t) == ":reset"@,
        step_of(Some(t)) is Again <==> trimmed(t).len() == 0,
        step_of(Some(t)) matches StepView::Answer(s) ==> s == trimmed(t),
{
    reveal_strlit(":quit");
    reveal_strlit(":q");
    reveal_strlit(":reset");
}

/// Taking the likeliest token leaves out chance, limits and penalties; the seed stays.
pub proof fn greedy_means_no_chance(seed: u64)
    ensures
        greedy_config(seed).temperature == 0,
        greedy_config(seed).top_k == 0,
        greedy_config(seed).top_p == 0x3f80_0000,
        greedy_config(seed).min_p == 0,
        greedy_config(seed).repeat_penalty == 0x3f80_0000,
        greedy_config(seed).seed == seed,
{
}

/// After a failure the message is said, with advice exactly where the dialogue has become too long;
/// the share of the view that is used is said where asked for.
pub proof fn status_tells_what_happened(
    e: ErrorView,
    verbose: bool,
    took: Seq<char>,
    used: nat,
    limit: nat,
)
    ensures
        has_part(error_text(e), "上下文超出"@) ==> status_of(Err(e), verbose, took, used, limit)
            == "  错误: "@ + error_text(e) + "\n"@
            + "  提示: 输入 :reset 清空上下文后重新提问\n"@,
        !has_part(error_text(e), "上下文超出"@) ==> status_of(Err(e), verbose, took, used, limit)
            == "  错误: "@ + error_text(e) + "\n"@,
        status_of(Ok(()), false, took, used, limit) == "  [耗时 "@ + took + "]\n"@,
        status_of(Ok(()), true, took, used, limit) == "  [耗时 "@ + took + ", ctx "@ + dec(used)
            + "/"@ + dec(limit) + "]\n"@,
{
    reveal_strlit("");
    assert("  错误: "@ + error_text(e) + "\n"@ + ""@ =~= "  错误: "@ + error_text(e) + "\n"@);
}

// ---------------------------------------------------------------------------------------------
// Numbers in groups
// ---------------------------------------------------------------------------------------------

/// In a grouped number every fourth character from the end is a comma, and no other is; it does not
/// start with one.
pub proof fn every_fourth_is_a_comma(n: nat, i: int)
    ensures
        grouped(n).len() > 0,
        grouped(n).len() % 4 != 0,
        0 <= i < grouped(n).len() ==> (grouped(n)[i] == ',' <==> (grouped(n).len() - i) % 4 == 0),
    decreases n,
{
    if n < 1000 {
        decimal_reads_back(n);
        lemma_few_digits(n);
    } else {
        every_fourth_is_a_comma(n / 1000, i);
        let front = grouped(n / 1000);
        let tail = three_digits(n % 1000);
        assert(grouped(n) == front + seq![','] + tail);
        assert(tail.len() == 3);
        if front.len() < i < grouped(n).len() {
            assert(grouped(n)[i] == tail[i - front.len() - 1]);
        }
    }
}

proof fn lemma_few_digits(n: nat)
    requires
        n < 1000,
    ensures
        1 <= dec(n).len() <= 3,
{
    reveal_with_fuel(dec, 4);
}

/// The size of a tensor of plain numbers is its elements times their width; of any other type it is
/// not told.
pub proof fn plain_sizes_are_told(t: TensorView)
    ensures
        t.dtype == GgmlType::F32 && element_count(t) * 4 <= u64::MAX ==> data_text(t) == grouped(
            (element_count(t) * 4) as nat,
        ),
        (t.dtype == GgmlType::F16 || t.dtype == GgmlType::BF16) && element_count(t) * 2 <= u64::MAX
            ==> data_text(t) == grouped((element_count(t) * 2) as nat),
        t.dtype != GgmlType::F32 && t.dtype != GgmlType::F16 && t.dtype != GgmlType::BF16
            ==> data_text(t) == "—"@,
{
}

/// The line of a tensor holds its name, its shape, the name of its type, its offset and its size, in
/// this order, in columns.
pub proof fn tensor_line_holds_its_cells(t: TensorView)
    ensures
        tensor_line(t) == seq![
            PieceView::Text(
                "  "@ + left_column(cut(t.name, 40), 40) + " "@ + left_column(
                    shape_text(t.shape),
                    24,
                ) + " "@ + ggml_type_name(t.dtype) + " "@ + right_column(
                    grouped(t.offset as nat),
                    16,
                ) + " "@ + right_column(data_text(t), 18),
            ),
        ],
{
}

/// The line of a pair starts with its key and the name of its type, and what follows is the text of
/// its value.
pub proof fn pair_line_ends_with_the_value(key: Seq<char>, v: ValueView)
    ensures
        pair_line((key, v)).drop_first() == value_text(v),
        pair_line((key, v))[0] == PieceView::Text(
            "  "@ + left_column(key, 38) + " "@ + gguf_type_name(type_of_value(v)) + " "@,
        ),
{
    assert(pair_line((key, v)).drop_first() =~= value_text(v));
}

/// The summary tells the file's path, size, version, counts, alignment, offset, architecture and
/// name, each on a line of its own.
pub proof fn summary_tells_the_file(f: FileView, path: Seq<char>, s: Seq<char>)
    ensures
        summary_lines(f, path).len() == 10,
        summary_lines(f, path)[0] == text_line("GGUF File: "@ + path),
        summary_lines(f, path)[2] == text_line("Size:            "@ + size_text(f.file_size, 2)),
        summary_lines(f, path)[3] == text_line("Version:         "@ + dec(f.header.version as nat)),
        summary_lines(f, path)[4] == text_line(
            "Tensors:         "@ + grouped(f.header.n_tensors as nat),
        ),
        summary_lines(f, path)[5] == text_line("KV pairs:        "@ + grouped(f.header.n_kv as nat)),
        summary_lines(f, path)[6] == text_line("Alignment:       "@ + dec(f.alignment as nat)),
        summary_lines(f, path)[7] == text_line(
            "Data offset:     "@ + grouped(f.data_offset as nat) + " bytes ("@ + size_text(
                f.data_offset,
                2,
            ) + ")"@,
        ),
        states(f.kv, "general.architecture"@, ValueView::String(s)) ==> summary_lines(f, path)[8]
            == text_line("Architecture:    "@ + s),
        silent(f.kv, "general.architecture"@) ==> summary_lines(f, path)[8] == text_line(
            "Architecture:    "@ + "(unknown)"@,
        ),
        states(f.kv, "general.name"@, ValueView::String(s)) ==> summary_lines(f, path)[9]
            == text_line("Model name:      "@ + s),
        silent(f.kv, "general.name"@) ==> summary_lines(f, path)[9] == text_line(
            "Model name:      "@ + "(unnamed)"@,
        ),
{
    first_pair_counts(f.kv, "general.architecture"@);
    first_pair_counts(f.kv, "general.name"@);
}

/// What is looked up in a list is the array that stands first under the key; anything else is an
/// empty list.
pub proof fn lists_are_the_stated_arrays(
    f: FileView,
    key: Seq<char>,
    ty: GgufType,
    data: Seq<ValueView>,
    i: int,
)
    ensures
        states(f.kv, key, ValueView::Array(ty, data)) ==> array_under(f, key) == data,
        silent(f.kv, key) ==> array_under(f, key).len() == 0,
        0 <= i < data.len() ==> (forall|s: Seq<char>|
            data[i] == ValueView::String(s) <==> string_in(data, i) == Some(s)),
        i < 0 || i >= data.len() ==> string_in(data, i) is None,
{
    first_pair_counts(f.kv, key);
}

// ---------------------------------------------------------------------------------------------
// Errors
// ---------------------------------------------------------------------------------------------

/// A read past the end tells how many of the bytes that it needs are there: those from its place to
/// the end of the file, or none where it is behind the end.
pub proof fn reads_past_the_end_tell_what_is_left(offset: u64, required: u64, file_size: u64)
    ensures
        offset <= file_size && file_size - offset < required ==> bytes_left(
            offset,
            required,
            file_size,
        ) + offset == file_size,
        offset > file_size ==> bytes_left(offset, required, file_size) == 0,
        bytes_left(offset, required, file_size) <= required,
        error_text(ErrorView::OutOfBounds { offset, required, file_size })
            == "read out of bounds at offset "@ + dec(offset as nat) + ": need "@ + dec(
            required as nat,
        ) + " bytes but only "@ + dec(bytes_left(offset, required, file_size)) + " remain (file size "@
            + dec(file_size as nat) + ")"@,
{
}

/// Each kind of error has its own words before what it is about.
pub proof fn errors_have_their_words(s: Seq<char>, n: u32, i: i32)
    ensures
        error_text(ErrorView::Io(s)) == "I/O error: "@ + s,
        error_text(ErrorView::Mmap(s)) == "mmap error: "@ + s,
        error_text(ErrorView::InferenceError(s)) == "inference error: "@ + s,
        error_text(ErrorView::UnsupportedArchitecture(s)) == "unsupported architecture: "@ + s,
        error_text(ErrorView::TokenizerError(s)) == "tokenizer error: "@ + s,
        error_text(ErrorView::Other(s)) == s,
        error_text(ErrorView::MissingTensor { name: s, kind: "tensor"@ }) == "missing "@ + "tensor"@
            + ": "@ + s,
        error_text(ErrorView::UnsupportedVersion(n)) == "unsupported GGUF version: "@ + dec(
            n as nat,
        ) + " (expected 3)"@,
        error_text(ErrorView::InvalidMagic(n)) == "invalid GGUF magic number: 0x"@ + hex(n as nat, 8)
            + " (expected 0x46554747)"@,
        error_text(ErrorView::InvalidGgufType(i)) == "invalid gguf_type value: "@ + dec_int(i as int),
{
}

// ---------------------------------------------------------------------------------------------
// Lines
// ---------------------------------------------------------------------------------------------

/// A typed line loses the line breaks at its end and nothing else.
pub proof fn breaks_are_taken_off(line: Seq<u16>, i: int)
    ensures
        without_breaks(line).len() <= line.len(),
        0 <= i < without_breaks(line).len() ==> without_breaks(line)[i] == line[i],
        without_breaks(line).len() <= i < line.len() ==> line[i] == 10 || line[i] == 13,
        without_breaks(line).len() > 0 ==> without_breaks(line).last() != 10 && without_breaks(
            line,
        ).last() != 13,
    decreases line.len(),
{
    if line.len() > 0 && (line.last() == 10 || line.last() == 13) {
        breaks_are_taken_off(line.drop_last(), i);
    }
}

/// What is said of a loaded model and of the ready engine is its sizes, under their names.
pub proof fn model_is_told_by_its_sizes(
    h: HParamsView,
    arch: Seq<char>,
    size: u64,
    took: Seq<char>,
)
    ensures
        loaded_text(Some(arch), h, size, took) == "  架构="@ + arch + "  层数="@ + dec(
            h.n_layers as nat,
        ) + "  隐藏维度="@ + dec(h.embed_dim as nat) + "  词表="@ + dec(h.vocab_size as nat)
            + "  大小="@ + size_text(size, 1) + "  耗时="@ + took,
        loaded_text(None, h, size, took) == loaded_text(Some("?"@), h, size, took),
        ready_text(h) == "引擎就绪 (embed="@ + dec(h.embed_dim as nat) + ", heads="@ + dec(
            h.n_heads as nat,
        ) + ", kv_heads="@ + dec(h.n_kv_heads as nat) + ", ffn="@ + dec(h.ffn_dim as nat)
            + ", ctx="@ + dec(h.context_length as nat) + ")"@,
{
}

/// The long report tells how many pairs and tensors there are, above their lines.
pub proof fn long_report_has_its_headings(f: FileView, path: Seq<char>, o: OptionsView)
    requires
        !o.quiet,
        !o.summary_only,
    ensures
        report_lines(f, path, o)[11] == text_line(
            "Key-Value Metadata (showing "@ + dec(f.kv.len()) + " of "@ + dec(f.header.n_kv as nat)
                + "):"@,
        ),
        ({
            let pairs = pair_lines(f.kv, o.keys, pair_limit(o), 0, 0);
            let n = tensor_limit(f.tensors.len(), o.tensors_all);
            &&& report_lines(f, path, o).subrange(12, 12 + pairs.len() as int) == pairs
            &&& report_lines(f, path, o)[13 + pairs.len() as int] == text_line(
                "Tensors (showing first "@ + dec(n) + " of "@ + dec(f.header.n_tensors as nat)
                    + "):"@,
            )
            &&& report_lines(f, path, o).skip(14 + pairs.len() as int) == table_lines(f.tensors, n)
        }),
{
    let pairs = pair_lines(f.kv, o.keys, pair_limit(o), 0, 0);
    let n = tensor_limit(f.tensors.len(), o.tensors_all);
    let all = report_lines(f, path, o);
    assert(summary_lines(f, path).len() == 10);
    assert(all.subrange(12, 12 + pairs.len() as int) =~= pairs);
    assert(all.skip(14 + pairs.len() as int) =~= table_lines(f.tensors, n));
}

/// A prompt is taken without the white space around it, and refused where nothing is left.
pub proof fn blank_prompts_are_refused(given: &str, r: GgufResult<String>)
    requires
        call_ensures(checked_prompt, (given,), r),
    ensures
        r is Ok <==> trimmed(given@).len() > 0,
        r is Ok ==> r->Ok_0@ == trimmed(given@),
{
}

/// The settings are those that were given, but for the switch that leaves out chance.
pub proof fn given_settings_are_taken(greedy: bool, given: SamplerConfig, r: SamplerConfig)
    requires
        call_ensures(sampler_config, (greedy, given), r),
    ensures
        !greedy ==> r == given,
        greedy ==> r.temperature == 0 && r.min_p == 0 && r.top_k == 0 && r.top_p == 0x3f80_0000
            && r.repeat_penalty == 0x3f80_0000,
        r.seed == given.seed,
{
}

/// The head of the table of tensors names its columns, over the columns.
pub proof fn table_names_its_columns()
    ensures
        table_head() == "  "@ + left_column("NAME"@, 40) + " "@ + left_column("SHAPE"@, 24) + " "@
            + left_column("TYPE"@, 14) + " "@ + right_column("OFFSET"@, 16) + " "@ + right_column(
            "SIZE"@,
            18,
        ),
{
}

} // verus!
