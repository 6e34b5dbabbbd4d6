//! What a file holds, as a report for people.
use vstd::prelude::*;
use vstd::string::*;
use crate::error::{ErrorView, GgufError};
use crate::file::{pairs_view, string_value, FileView, GgufFile};
use crate::sizes::{grouped, human_size, size_text, with_commas};
use crate::tensor::{element_count, saturated, TensorInfo, TensorView};
use crate::text::{
    chars_of, concat, dec, dec_string, left_column, listed, owned, push_dec, push_left, push_listed,
    push_right, right_column, same, string_of,
};
use crate::types::{
    ggml_element_size, ggml_is_float, ggml_type_name, gguf_type_name, pieces_view, type_of_value,
    value_text, GgufValue, Piece, PieceView, ValueView,
};

verus! {

/// The process's exit code for an error: 1 for files that cannot be read, 2 for files of another
/// kind, 3 for other versions, 4 for anything else.
pub open spec fn dump_exit_code(e: ErrorView) -> u8 {
    match e {
        ErrorView::Io(_) => 1,
        ErrorView::InvalidMagic(_) => 2,
        ErrorView::UnsupportedVersion(_) => 3,
        _ => 4,
    }
}

/// The process's exit code for an error.
pub fn exit_code_for(e: &GgufError) -> (r: u8)
    ensures
        r == dump_exit_code(e@),
{
    match e {
        GgufError::Io(_) => 1,
        GgufError::InvalidMagic(_) => 2,
        GgufError::UnsupportedVersion(_) => 3,
        _ => 4,
    }
}

// ---------------------------------------------------------------------------------------------
// Cells
// ---------------------------------------------------------------------------------------------

/// A text of at most `max` characters: a longer one loses its end, and an ellipsis says so.
pub open spec fn cut(s: Seq<char>, max: int) -> Seq<char> {
    if s.len() <= max {
        s
    } else {
        s.take(
            if max > 0 {
                max - 1
            } else {
                0
            },
        ) + "…"@
    }
}

/// A text of at most `max` characters.
pub fn truncate(s: &str, max: usize) -> (r: String)
    ensures
        r@ == cut(s@, max as int),
{
    let chars = chars_of(s);
    if chars.len() <= max {
        return owned(s);
    }
    let keep: usize = if max > 0 {
        max - 1
    } else {
        0
    };
    let mut r = string_of(chars.as_slice(), 0, keep);
    assert(r@ =~= s@.take(keep as int));
    r.append("…");
    r
}

/// The dimensions of a tensor; `()` where there are none.
pub open spec fn shape_text(shape: Seq<u64>) -> Seq<char> {
    if shape.len() == 0 {
        "()"@
    } else {
        listed(shape)
    }
}

/// The dimensions of a tensor.
pub fn format_shape(shape: &Vec<u64>) -> (r: String)
    ensures
        r@ == shape_text(shape@),
{
    if shape.len() == 0 {
        return owned("()");
    }
    let mut r = String::new();
    push_listed(&mut r, shape);
    assert(r@ =~= listed(shape@));
    r
}

/// The size of a tensor's data, where it can be told; else a dash.
pub open spec fn data_text(t: TensorView) -> Seq<char> {
    if ggml_is_float(t.dtype) {
        grouped(
            saturated(element_count(t) as nat * ggml_element_size(t.dtype)->Some_0 as nat) as nat,
        )
    } else {
        "—"@
    }
}

// ---------------------------------------------------------------------------------------------
// The report
// ---------------------------------------------------------------------------------------------

/// What the report is to hold.
#[derive(Debug)]
pub struct ReportOptions {
    /// All tensors, not only the first ones.
    pub tensors_all: bool,
    /// How many pairs are listed, where no keys are asked for.
    pub max_kv: usize,
    /// The keys whose pairs are listed; where there are none, all of them are.
    pub keys: Vec<String>,
    /// The summary alone.
    pub summary_only: bool,
    /// The summary alone.
    pub quiet: bool,
}

/// A [`ReportOptions`] with its keys as sequences.
pub struct OptionsView {
    pub tensors_all: bool,
    pub max_kv: usize,
    pub keys: Seq<Seq<char>>,
    pub summary_only: bool,
    pub quiet: bool,
}

/// The views of keys in a row.
pub open spec fn keys_view(s: Seq<String>) -> Seq<Seq<char>> {
    Seq::new(s.len(), |i: int| s[i]@)
}

impl View for ReportOptions {
    type V = OptionsView;

    open spec fn view(&self) -> OptionsView {
        OptionsView {
            tensors_all: self.tensors_all,
            max_kv: self.max_kv,
            keys: keys_view(self.keys@),
            summary_only: self.summary_only,
            quiet: self.quiet,
        }
    }
}

/// How many tensors the report lists where not all are asked for.
pub const TENSOR_TEXT_LIMIT: usize = 50;

/// How many elements of an array the JSON form holds.
pub const JSON_ARRAY_LIMIT: usize = 1000;

/// A line of nothing but text.
pub open spec fn text_line(s: Seq<char>) -> Seq<PieceView> {
    seq![PieceView::Text(s)]
}

/// A string, or a word that stands for its absence.
pub open spec fn string_or(s: Option<Seq<char>>, absent: Seq<char>) -> Seq<char> {
    match s {
        Some(x) => x,
        None => absent,
    }
}

/// The summary.
pub open spec fn summary_lines(f: FileView, path: Seq<char>) -> Seq<Seq<PieceView>> {
    seq![
        text_line("GGUF File: "@ + path),
        text_line("====================="@),
        text_line("Size:            "@ + size_text(f.file_size, 2)),
        text_line("Version:         "@ + dec(f.header.version as nat)),
        text_line("Tensors:         "@ + grouped(f.header.n_tensors as nat)),
        text_line("KV pairs:        "@ + grouped(f.header.n_kv as nat)),
        text_line("Alignment:       "@ + dec(f.alignment as nat)),
        text_line(
            "Data offset:     "@ + grouped(f.data_offset as nat) + " bytes ("@ + size_text(
                f.data_offset,
                2,
            ) + ")"@,
        ),
        text_line(
            "Architecture:    "@ + string_or(
                string_value(f.kv, "general.architecture"@),
                "(unknown)"@,
            ),
        ),
        text_line(
            "Model name:      "@ + string_or(string_value(f.kv, "general.name"@), "(unnamed)"@),
        ),
    ]
}

/// The line of a pair: the key in a column, the type, and the value.
pub open spec fn pair_line(pair: (Seq<char>, ValueView)) -> Seq<PieceView> {
    text_line(
        "  "@ + left_column(pair.0, 38) + " "@ + gguf_type_name(type_of_value(pair.1)) + " "@,
    ) + value_text(pair.1)
}

/// Whether a pair is listed.
pub open spec fn key_wanted(keys: Seq<Seq<char>>, key: Seq<char>) -> bool {
    keys.len() == 0 || keys.contains(key)
}

/// The lines of the pairs from `i` on, after `shown` of them were listed.
pub open spec fn pair_lines(
    kv: Seq<(Seq<char>, ValueView)>,
    keys: Seq<Seq<char>>,
    limit: nat,
    i: int,
    shown: nat,
) -> Seq<Seq<PieceView>>
    decreases kv.len() - i,
{
    let nothing = if shown == 0 {
        seq![text_line("  (no matching keys)"@)]
    } else {
        Seq::empty()
    };
    if i >= kv.len() {
        nothing
    } else if !key_wanted(keys, kv[i].0) {
        pair_lines(kv, keys, limit, i + 1, shown)
    } else if shown >= limit {
        seq![text_line("  ... ("@ + dec((kv.len() - shown) as nat) + " more keys)"@)] + nothing
    } else {
        seq![pair_line(kv[i])] + pair_lines(kv, keys, limit, i + 1, shown + 1)
    }
}

/// How many pairs are listed at most.
pub open spec fn pair_limit(o: OptionsView) -> nat {
    if o.keys.len() == 0 {
        o.max_kv as nat
    } else {
        usize::MAX as nat
    }
}

/// How many tensors are listed.
pub open spec fn tensor_limit(n: nat, all: bool) -> nat {
    if all || n <= TENSOR_TEXT_LIMIT {
        n
    } else {
        TENSOR_TEXT_LIMIT as nat
    }
}

/// A row of the table of tensors.
pub open spec fn table_row(
    name: Seq<char>,
    shape: Seq<char>,
    dtype: Seq<char>,
    offset: Seq<char>,
    size: Seq<char>,
) -> Seq<char> {
    "  "@ + left_column(name, 40) + " "@ + left_column(shape, 24) + " "@ + dtype + " "@
        + right_column(offset, 16) + " "@ + right_column(size, 18)
}

/// The line of a tensor.
pub open spec fn tensor_line(t: TensorView) -> Seq<PieceView> {
    text_line(
        table_row(
            cut(t.name, 40),
            shape_text(t.shape),
            ggml_type_name(t.dtype),
            grouped(t.offset as nat),
            data_text(t),
        ),
    )
}

/// The head of the table of tensors.
pub open spec fn table_head() -> Seq<char> {
    table_row("NAME"@, "SHAPE"@, left_column("TYPE"@, 14), "OFFSET"@, "SIZE"@)
}

/// The table of the first `n` tensors.
pub open spec fn table_lines(tensors: Seq<TensorView>, n: nat) -> Seq<Seq<PieceView>> {
    if n == 0 {
        Seq::empty()
    } else {
        seq![text_line(table_head())] + Seq::new(n, |i: int| tensor_line(tensors[i]))
    }
}

/// The whole report.
pub open spec fn report_lines(f: FileView, path: Seq<char>, o: OptionsView) -> Seq<Seq<PieceView>> {
    let n = tensor_limit(f.tensors.len(), o.tensors_all);
    if o.quiet || o.summary_only {
        summary_lines(f, path)
    } else {
        summary_lines(f, path) + seq![
            text_line(""@),
            text_line(
                "Key-Value Metadata (showing "@ + dec(f.kv.len()) + " of "@ + dec(
                    f.header.n_kv as nat,
                ) + "):"@,
            ),
        ] + pair_lines(f.kv, o.keys, pair_limit(o), 0, 0) + seq![
            text_line(""@),
            text_line(
                "Tensors (showing first "@ + dec(n) + " of "@ + dec(f.header.n_tensors as nat)
                    + "):"@,
            ),
        ] + table_lines(f.tensors, n)
    }
}

/// The views of lines in a row.
pub open spec fn report_view(s: Seq<Vec<Piece>>) -> Seq<Seq<PieceView>> {
    Seq::new(s.len(), |i: int| pieces_view(s[i]@))
}

fn push_pieces(out: &mut Vec<Vec<Piece>>, line: Vec<Piece>)
    ensures
        report_view(final(out)@) == report_view(old(out)@).push(pieces_view(line@)),
{
    out.push(line);
    assert(report_view(out@) =~= report_view(old(out)@).push(pieces_view(line@)));
}

fn push_text_line(out: &mut Vec<Vec<Piece>>, s: String)
    ensures
        report_view(final(out)@) == report_view(old(out)@).push(text_line(s@)),
{
    let mut line: Vec<Piece> = Vec::new();
    line.push(Piece::Text(s));
    assert(pieces_view(line@) =~= text_line(s@));
    push_pieces(out, line);
}

fn push_pair_line(out: &mut Vec<Vec<Piece>>, key: &String, value: &GgufValue)
    ensures
        report_view(final(out)@) == report_view(old(out)@).push(pair_line((key@, value@))),
{
    let mut head = owned("  ");
    push_left(&mut head, key.as_str(), 38);
    head.append(" ");
    head.append(value.value_type().name());
    head.append(" ");
    let ghost text = head@;
    let mut line: Vec<Piece> = Vec::new();
    line.push(Piece::Text(head));
    let mut rest = value.display();
    let ghost shown = rest@;
    line.append(&mut rest);
    proof {
        assert(text =~= "  "@ + left_column(key@, 38) + " "@ + gguf_type_name(type_of_value(value@))
            + " "@);
        assert(pieces_view(line@) =~= text_line(text) + pieces_view(shown));
    }
    push_pieces(out, line);
}

/// Whether a pair with this key is listed.
pub(crate) fn is_wanted(keys: &Vec<String>, key: &String) -> (r: bool)
    ensures
        r == key_wanted(keys_view(keys@), key@),
{
    if keys.len() == 0 {
        return true;
    }
    let ghost all = keys_view(keys@);
    let mut i: usize = 0;
    while i < keys.len()
        invariant
            i <= keys@.len(),
            all == keys_view(keys@),
            forall|k: int| 0 <= k < i ==> all[k] != key@,
        decreases keys@.len() - i,
    {
        if same(keys[i].as_str(), key.as_str()) {
            assert(all[i as int] == key@);
            return true;
        }
        i += 1;
    }
    false
}

fn push_pair_lines(out: &mut Vec<Vec<Piece>>, file: &GgufFile, keys: &Vec<String>, limit: usize)
    ensures
        report_view(final(out)@) == report_view(old(out)@) + pair_lines(
            file@.kv,
            keys_view(keys@),
            limit as nat,
            0,
            0,
        ),
{
    let ghost kv = file@.kv;
    let ghost wanted = keys_view(keys@);
    let ghost all = report_view(out@) + pair_lines(kv, wanted, limit as nat, 0, 0);
    let mut shown: usize = 0;
    let mut i: usize = 0;
    while i < file.kv.len()
        invariant
            i <= file.kv@.len(),
            shown <= i,
            kv == pairs_view(file.kv@),
            wanted == keys_view(keys@),
            report_view(out@) + pair_lines(kv, wanted, limit as nat, i as int, shown as nat) == all,
            all == report_view(old(out)@) + pair_lines(kv, wanted, limit as nat, 0, 0),
            kv == file@.kv,
        decreases file.kv@.len() - i,
    {
        let ghost before = report_view(out@);
        if is_wanted(keys, &file.kv[i].0) {
            if shown >= limit {
                let mut m = owned("  ... (");
                push_dec(&mut m, (file.kv.len() - shown) as u64);
                m.append(" more keys)");
                push_text_line(out, m);
                if shown == 0 {
                    push_text_line(out, owned("  (no matching keys)"));
                }
                assert(report_view(out@) =~= all);
                return;
            }
            push_pair_line(out, &file.kv[i].0, &file.kv[i].1);
            shown += 1;
            assert(report_view(out@) + pair_lines(kv, wanted, limit as nat, i + 1, shown as nat)
                =~= before + (seq![pair_line(kv[i as int])] + pair_lines(
                kv,
                wanted,
                limit as nat,
                i + 1,
                shown as nat,
            )));
        }
        i += 1;
    }
    if shown == 0 {
        push_text_line(out, owned("  (no matching keys)"));
    }
    assert(report_view(out@) =~= all);
}

fn table_row_of(name: &str, shape: &str, dtype: &str, offset: &str, size: &str) -> (r: String)
    ensures
        r@ == table_row(name@, shape@, dtype@, offset@, size@),
{
    let mut r = owned("  ");
    push_left(&mut r, name, 40);
    r.append(" ");
    push_left(&mut r, shape, 24);
    r.append(" ");
    r.append(dtype);
    r.append(" ");
    push_right(&mut r, offset, 16);
    r.append(" ");
    push_right(&mut r, size, 18);
    assert(r@ =~= table_row(name@, shape@, dtype@, offset@, size@));
    r
}

fn push_tensor_line(out: &mut Vec<Vec<Piece>>, t: &TensorInfo)
    ensures
        report_view(final(out)@) == report_view(old(out)@).push(tensor_line(t@)),
{
    let size = match t.est_data_size() {
        Some(n) => with_commas(n),
        None => owned("—"),
    };
    let row = table_row_of(
        truncate(t.name.as_str(), 40).as_str(),
        format_shape(&t.shape).as_str(),
        t.dtype.to_string().as_str(),
        with_commas(t.offset).as_str(),
        size.as_str(),
    );
    push_text_line(out, row);
}

/// The table of the first `limit` tensors.
fn print_tensor_table(out: &mut Vec<Vec<Piece>>, file: &GgufFile, limit: usize)
    requires
        limit <= file.tensors@.len(),
    ensures
        report_view(final(out)@) == report_view(old(out)@) + table_lines(
            file@.tensors,
            limit as nat,
        ),
{
    let ghost start = report_view(out@);
    if limit == 0 {
        assert(start + Seq::<Seq<PieceView>>::empty() =~= start);
        return;
    }
    let mut kind = String::new();
    push_left(&mut kind, "TYPE", 14);
    assert(kind@ =~= left_column("TYPE"@, 14));
    let head = table_row_of("NAME", "SHAPE", kind.as_str(), "OFFSET", "SIZE");
    push_text_line(out, head);
    let ghost rows = start.push(text_line(table_head()));
    let mut i: usize = 0;
    assert(report_view(out@) =~= rows + Seq::new(0, |k: int| tensor_line(file@.tensors[k])));
    while i < limit
        invariant
            i <= limit <= file.tensors@.len(),
            report_view(out@) == rows + Seq::new(
                i as nat,
                |k: int| tensor_line(file@.tensors[k]),
            ),
        decreases limit - i,
    {
        push_tensor_line(out, &file.tensors[i]);
        assert(file@.tensors[i as int] == file.tensors@[i as int]@);
        i += 1;
        assert(report_view(out@) =~= rows + Seq::new(
            i as nat,
            |k: int| tensor_line(file@.tensors[k]),
        ));
    }
    assert(report_view(out@) =~= start + table_lines(file@.tensors, limit as nat));
}

fn push_labelled(out: &mut Vec<Vec<Piece>>, label: &str, value: &str)
    ensures
        report_view(final(out)@) == report_view(old(out)@).push(text_line(label@ + value@)),
{
    push_text_line(out, concat(label, value));
}

fn push_summary(out: &mut Vec<Vec<Piece>>, file: &GgufFile, path: &str)
    ensures
        report_view(final(out)@) == report_view(old(out)@) + summary_lines(file@, path@),
{
    let ghost start = report_view(out@);
    push_labelled(out, "GGUF File: ", path);
    push_text_line(out, owned("====================="));
    push_labelled(out, "Size:            ", human_size(file.file_size, 2).as_str());
    push_labelled(out, "Version:         ", dec_string(file.header.version as u64).as_str());
    push_labelled(out, "Tensors:         ", with_commas(file.header.n_tensors).as_str());
    push_labelled(out, "KV pairs:        ", with_commas(file.header.n_kv).as_str());
    push_labelled(out, "Alignment:       ", dec_string(file.alignment as u64).as_str());
    let mut m = concat("Data offset:     ", with_commas(file.data_offset).as_str());
    m.append(" bytes (");
    m.append(human_size(file.data_offset, 2).as_str());
    m.append(")");
    push_text_line(out, m);
    let arch = match file.architecture() {
        Some(s) => s,
        None => "(unknown)",
    };
    push_labelled(out, "Architecture:    ", arch);
    let name = match file.model_name() {
        Some(s) => s,
        None => "(unnamed)",
    };
    push_labelled(out, "Model name:      ", name);
    assert(report_view(out@) =~= start + summary_lines(file@, path@));
}

/// The report on a file, line by line.
pub fn print_text(file: &GgufFile, path: &str, options: &ReportOptions) -> (r: Vec<Vec<Piece>>)
    ensures
        report_view(r@) == report_lines(file@, path@, options@),
{
    let mut out: Vec<Vec<Piece>> = Vec::new();
    push_summary(&mut out, file, path);
    assert(report_view(out@) =~= summary_lines(file@, path@));
    if options.quiet || options.summary_only {
        return out;
    }
    push_text_line(&mut out, owned(""));
    let mut m = owned("Key-Value Metadata (showing ");
    push_dec(&mut m, file.kv.len() as u64);
    m.append(" of ");
    push_dec(&mut m, file.header.n_kv);
    m.append("):");
    push_text_line(&mut out, m);
    let limit: usize = if options.keys.len() == 0 {
        options.max_kv
    } else {
        usize::MAX
    };
    push_pair_lines(&mut out, file, &options.keys, limit);
    let shown: usize = if options.tensors_all || file.tensors.len() <= TENSOR_TEXT_LIMIT {
        file.tensors.len()
    } else {
        TENSOR_TEXT_LIMIT
    };
    push_text_line(&mut out, owned(""));
    let mut t = owned("Tensors (showing first ");
    push_dec(&mut t, shown as u64);
    t.append(" of ");
    push_dec(&mut t, file.header.n_tensors);
    t.append("):");
    push_text_line(&mut out, t);
    print_tensor_table(&mut out, file, shown);
    assert(report_view(out@) =~= report_lines(file@, path@, options@));
    out
}

} // verus!
