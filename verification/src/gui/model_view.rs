//! What the window shows of a model's file.
use vstd::prelude::*;
use vstd::string::*;
use crate::gui::inference::{rows_view, Row};
use crate::gui::state::{summary_view, ModelSummary, SummaryView};
use crate::sizes::{megabytes, megabytes_text};
use crate::text::{
    chars_of, concat, contains, dec, has_part, hex, left_column, lines_view, owned, push_dec,
    push_dec_u128, push_left, push_line, same,
};

verus! {

/// How many tensors are listed where not all are asked for.
pub const TENSOR_LIMIT: usize = 50;

/// What the window shows of a model's file.
#[derive(Debug)]
pub struct ModelView {
    pub summary: Option<ModelSummary>,
    pub kv_data: Vec<(String, String, String)>,
    pub tensor_data: Vec<(String, String, String)>,
    /// What the keys of the listed pairs must hold.
    pub kv_search: String,
    pub show_all_tensors: bool,
    pub token_id_query: String,
    pub token_str_query: String,
    pub token_result: String,
    pub ctx_limit: usize,
    pub embed_dim: u32,
    pub vocab_size: u32,
    /// The tokens of the vocabulary.
    pub vocab: Vec<String>,
}

/// A [`ModelView`] with its strings and lists as sequences.
pub struct ModelPanel {
    pub summary: Option<SummaryView>,
    pub kv_data: Seq<Row>,
    pub tensor_data: Seq<Row>,
    pub kv_search: Seq<char>,
    pub show_all_tensors: bool,
    pub token_id_query: Seq<char>,
    pub token_str_query: Seq<char>,
    pub token_result: Seq<char>,
    pub ctx_limit: usize,
    pub embed_dim: u32,
    pub vocab_size: u32,
    pub vocab: Seq<Seq<char>>,
}

impl View for ModelView {
    type V = ModelPanel;

    open spec fn view(&self) -> ModelPanel {
        ModelPanel {
            summary: summary_view(self.summary),
            kv_data: rows_view(self.kv_data@),
            tensor_data: rows_view(self.tensor_data@),
            kv_search: self.kv_search@,
            show_all_tensors: self.show_all_tensors,
            token_id_query: self.token_id_query@,
            token_str_query: self.token_str_query@,
            token_result: self.token_result@,
            ctx_limit: self.ctx_limit,
            embed_dim: self.embed_dim,
            vocab_size: self.vocab_size,
            vocab: lines_view(self.vocab@),
        }
    }
}

/// No model.
pub open spec fn empty_model() -> ModelPanel {
    ModelPanel {
        summary: None,
        kv_data: Seq::empty(),
        tensor_data: Seq::empty(),
        kv_search: Seq::empty(),
        show_all_tensors: false,
        token_id_query: Seq::empty(),
        token_str_query: Seq::empty(),
        token_result: Seq::empty(),
        ctx_limit: 0,
        embed_dim: 0,
        vocab_size: 0,
        vocab: Seq::empty(),
    }
}

impl Default for ModelView {
    fn default() -> (r: Self)
        ensures
            r@ == empty_model(),
    {
        let r = ModelView {
            summary: None,
            kv_data: Vec::new(),
            tensor_data: Vec::new(),
            kv_search: String::new(),
            show_all_tensors: false,
            token_id_query: String::new(),
            token_str_query: String::new(),
            token_result: String::new(),
            ctx_limit: 0,
            embed_dim: 0,
            vocab_size: 0,
            vocab: Vec::new(),
        };
        assert(r@.kv_data =~= Seq::<Row>::empty());
        assert(r@.tensor_data =~= Seq::<Row>::empty());
        assert(r@.vocab =~= Seq::<Seq<char>>::empty());
        r
    }
}

// ---------------------------------------------------------------------------------------------
// The summary
// ---------------------------------------------------------------------------------------------

/// The lines of the summary.
pub open spec fn summary_lines_of(s: SummaryView, m: ModelPanel) -> Seq<Seq<char>> {
    let always = seq![
        "文件名: "@ + s.name,
        "架构: "@ + s.arch,
        "模型名: "@ + s.model_name,
        "GGUF 版本: "@ + dec(s.gguf_version as nat),
        "对齐: "@ + dec(s.alignment as nat),
        "数据偏移: "@ + dec(s.data_offset as nat),
        "文件大小: "@ + megabytes_text(s.file_size) + " MB"@,
        "张量数: "@ + dec(s.tensor_count as nat),
        "KV 数: "@ + dec(s.kv_count as nat),
        "加载耗时: "@ + dec(s.load_ms as nat) + " ms"@,
    ];
    let vocab = if m.vocab_size > 0 {
        seq!["词表大小: "@ + dec(m.vocab_size as nat)]
    } else {
        Seq::empty()
    };
    let embed = if m.embed_dim > 0 {
        seq!["隐藏维度: "@ + dec(m.embed_dim as nat)]
    } else {
        Seq::empty()
    };
    let limit = if m.ctx_limit > 0 {
        seq!["上下文长度: "@ + dec(m.ctx_limit as nat)]
    } else {
        Seq::empty()
    };
    always + vocab + embed + limit
}

fn push_counted(out: &mut Vec<String>, label: &str, n: u64)
    ensures
        lines_view(final(out)@) == lines_view(old(out)@).push(label@ + dec(n as nat)),
{
    let mut s = owned(label);
    push_dec(&mut s, n);
    push_line(out, s);
}

impl ModelView {
    /// The lines of the summary; none without a model.
    pub fn summary_lines(&self) -> (r: Vec<String>)
        ensures
            lines_view(r@) == (match self@.summary {
                Some(s) => summary_lines_of(s, self@),
                None => Seq::empty(),
            }),
    {
        let mut out: Vec<String> = Vec::new();
        assert(lines_view(out@) =~= Seq::<Seq<char>>::empty());
        match &self.summary {
            None => {},
            Some(s) => {
                push_line(&mut out, concat("文件名: ", s.name.as_str()));
                push_line(&mut out, concat("架构: ", s.arch.as_str()));
                push_line(&mut out, concat("模型名: ", s.model_name.as_str()));
                push_counted(&mut out, "GGUF 版本: ", s.gguf_version as u64);
                push_counted(&mut out, "对齐: ", s.alignment as u64);
                push_counted(&mut out, "数据偏移: ", s.data_offset);
                let mut size = concat("文件大小: ", megabytes(s.file_size).as_str());
                size.append(" MB");
                push_line(&mut out, size);
                push_counted(&mut out, "张量数: ", s.tensor_count as u64);
                push_counted(&mut out, "KV 数: ", s.kv_count as u64);
                let mut took = owned("加载耗时: ");
                push_dec_u128(&mut took, s.load_ms);
                took.append(" ms");
                push_line(&mut out, took);
                if self.vocab_size > 0 {
                    push_counted(&mut out, "词表大小: ", self.vocab_size as u64);
                }
                if self.embed_dim > 0 {
                    push_counted(&mut out, "隐藏维度: ", self.embed_dim as u64);
                }
                if self.ctx_limit > 0 {
                    push_counted(&mut out, "上下文长度: ", self.ctx_limit as u64);
                }
                assert(lines_view(out@) =~= summary_lines_of(s@, self@));
            },
        }
        out
    }
}

/// The summary as one text.
pub open spec fn summary_text_of(s: SummaryView) -> Seq<char> {
    "模型: "@ + s.name + "\n架构: "@ + s.arch + "\nGGUF 版本: "@ + dec(s.gguf_version as nat) + "\n对齐: "@
        + dec(s.alignment as nat) + "\n数据偏移: "@ + dec(s.data_offset as nat) + "\n文件大小: "@
        + megabytes_text(s.file_size) + " MB\n张量数: "@ + dec(s.tensor_count as nat) + "\nKV 数: "@ + dec(
        s.kv_count as nat,
    ) + "\n加载耗时: "@ + dec(s.load_ms as nat) + " ms"@
}

impl ModelView {
    /// The summary as one text; nothing without a model.
    pub fn summary_text(&self) -> (r: String)
        ensures
            r@ == (match self@.summary {
                Some(s) => summary_text_of(s),
                None => Seq::empty(),
            }),
    {
        match &self.summary {
            None => String::new(),
            Some(s) => {
                let mut r = concat("模型: ", s.name.as_str());
                r.append("\n架构: ");
                r.append(s.arch.as_str());
                r.append("\nGGUF 版本: ");
                push_dec(&mut r, s.gguf_version as u64);
                r.append("\n对齐: ");
                push_dec(&mut r, s.alignment as u64);
                r.append("\n数据偏移: ");
                push_dec(&mut r, s.data_offset);
                r.append("\n文件大小: ");
                r.append(megabytes(s.file_size).as_str());
                r.append(" MB\n张量数: ");
                push_dec(&mut r, s.tensor_count as u64);
                r.append("\nKV 数: ");
                push_dec(&mut r, s.kv_count as u64);
                r.append("\n加载耗时: ");
                push_dec_u128(&mut r, s.load_ms);
                r.append(" ms");
                r
            },
        }
    }
}

// ---------------------------------------------------------------------------------------------
// The listed pairs
// ---------------------------------------------------------------------------------------------

/// A text in lower case.
pub uninterp spec fn lowercase(s: Seq<char>) -> Seq<char>;

/// `str::to_lowercase` of std: the text in lower case, by Unicode's rules, which are named and not
/// described.
#[verifier::external_body]
fn lowercase_of(s: &str) -> (r: String)
    ensures
        r@ == lowercase(s@),
{
    s.to_lowercase()
}

/// The places below `n` of the keys that hold a text.
pub open spec fn places_with(keys: Seq<Seq<char>>, part: Seq<char>, n: nat) -> Seq<usize>
    decreases n,
{
    if n == 0 {
        Seq::empty()
    } else {
        let rest = places_with(keys, part, (n - 1) as nat);
        if has_part(keys[n - 1], part) {
            rest.push((n - 1) as usize)
        } else {
            rest
        }
    }
}

/// The places of the keys that hold a text.
pub fn matching(keys: &Vec<String>, part: &str) -> (r: Vec<usize>)
    ensures
        r@ == places_with(lines_view(keys@), part@, keys@.len()),
{
    let mut r: Vec<usize> = Vec::new();
    let mut i: usize = 0;
    while i < keys.len()
        invariant
            i <= keys@.len(),
            r@ == places_with(lines_view(keys@), part@, i as nat),
        decreases keys@.len() - i,
    {
        assert(lines_view(keys@)[i as int] == keys@[i as int]@);
        if contains(keys[i].as_str(), part) {
            r.push(i);
        }
        i += 1;
    }
    r
}

/// The keys of rows in lower case.
pub open spec fn lower_keys(rows: Seq<Row>) -> Seq<Seq<char>> {
    Seq::new(rows.len(), |i: int| lowercase(rows[i].0))
}

/// The places of the pairs that are listed: all where nothing is searched for, and else those whose
/// key holds what is searched for, in whatever case.
pub open spec fn listed_pairs(m: ModelPanel) -> Seq<usize> {
    if m.kv_search.len() == 0 {
        Seq::new(m.kv_data.len(), |i: int| i as usize)
    } else {
        places_with(lower_keys(m.kv_data), lowercase(m.kv_search), m.kv_data.len())
    }
}

/// A row with its first two cells in columns.
pub open spec fn row_text(row: Row, first: int, second: int) -> Seq<char> {
    left_column(row.0, first) + " "@ + left_column(row.1, second) + " "@ + row.2
}

fn text_of_row(row: &(String, String, String), first: usize, second: usize) -> (r: String)
    ensures
        r@ == row_text((row.0@, row.1@, row.2@), first as int, second as int),
{
    let mut s = String::new();
    push_left(&mut s, row.0.as_str(), first);
    s.append(" ");
    push_left(&mut s, row.1.as_str(), second);
    s.append(" ");
    s.append(row.2.as_str());
    assert(s@ =~= row_text((row.0@, row.1@, row.2@), first as int, second as int));
    s
}

/// The heading of the listed pairs.
pub open spec fn pair_heading_text() -> Seq<char> {
    row_text(("键"@, "类型"@, "值"@), 50, 10)
}

/// The heading of the listed tensors.
pub open spec fn tensor_heading_text() -> Seq<char> {
    row_text(("名称"@, "形状"@, "类型"@), 50, 25)
}

impl ModelView {
    /// The heading of the listed pairs.
    pub fn pair_heading() -> (r: String)
        ensures
            r@ == pair_heading_text(),
    {
        text_of_row(&(owned("键"), owned("类型"), owned("值")), 50, 10)
    }

    /// The heading of the listed tensors.
    pub fn tensor_heading() -> (r: String)
        ensures
            r@ == tensor_heading_text(),
    {
        text_of_row(&(owned("名称"), owned("形状"), owned("类型")), 50, 25)
    }

    /// The label of the switch that asks for all tensors.
    pub fn tensors_label(&self) -> (r: String)
        ensures
            r@ == (if self@.show_all_tensors {
                "显示全部"@
            } else {
                "显示全部 (当前前 "@ + dec(TENSOR_LIMIT as nat) + ")"@
            }),
    {
        if self.show_all_tensors {
            return owned("显示全部");
        }
        let mut s = owned("显示全部 (当前前 ");
        push_dec(&mut s, TENSOR_LIMIT as u64);
        s.append(")");
        s
    }
}

/// Places that are inside a list.
pub open spec fn inside(places: Seq<usize>, n: nat) -> bool {
    forall|i: int| 0 <= i < places.len() ==> #[trigger] places[i] < n
}

proof fn lemma_places_inside(keys: Seq<Seq<char>>, part: Seq<char>, n: nat, total: nat)
    requires
        n <= total <= usize::MAX,
    ensures
        inside(places_with(keys, part, n), total),
    decreases n,
{
    if n > 0 {
        lemma_places_inside(keys, part, (n - 1) as nat, total);
    }
}

/// The lines of the listed pairs; where none is listed, one that says so.
pub open spec fn pair_lines_of(m: ModelPanel) -> Seq<Seq<char>> {
    let p = listed_pairs(m);
    if p.len() == 0 {
        seq!["(无匹配项)"@]
    } else {
        Seq::new(p.len(), |i: int| row_text(m.kv_data[p[i] as int], 50, 10))
    }
}

impl ModelView {
    /// The places of the pairs that are listed.
    pub fn listed_pairs(&self) -> (r: Vec<usize>)
        ensures
            r@ == listed_pairs(self@),
            inside(r@, self@.kv_data.len()),
    {
        if self.kv_search.as_str().is_empty() {
            let mut r: Vec<usize> = Vec::new();
            let mut i: usize = 0;
            while i < self.kv_data.len()
                invariant
                    i <= self.kv_data@.len(),
                    r@ == Seq::new(i as nat, |k: int| k as usize),
                decreases self.kv_data@.len() - i,
            {
                r.push(i);
                i += 1;
                assert(r@ =~= Seq::new(i as nat, |k: int| k as usize));
            }
            return r;
        }
        let mut keys: Vec<String> = Vec::new();
        let mut i: usize = 0;
        let ghost all = lower_keys(self@.kv_data);
        assert(lines_view(keys@) =~= all.take(0));
        while i < self.kv_data.len()
            invariant
                i <= self.kv_data@.len(),
                all == lower_keys(self@.kv_data),
                lines_view(keys@) == all.take(i as int),
            decreases self.kv_data@.len() - i,
        {
            let k = lowercase_of(self.kv_data[i].0.as_str());
            assert(self@.kv_data[i as int].0 == self.kv_data@[i as int].0@);
            push_line(&mut keys, k);
            i += 1;
            assert(lines_view(keys@) =~= all.take(i as int));
        }
        assert(all.take(i as int) =~= all);
        assert(keys@.len() == lines_view(keys@).len());
        let n: usize = keys.len();
        let part = lowercase_of(self.kv_search.as_str());
        proof {
            lemma_places_inside(all, part@, n as nat, n as nat);
        }
        matching(&keys, part.as_str())
    }

    /// The lines of the listed pairs.
    pub fn pair_lines(&self) -> (r: Vec<String>)
        ensures
            lines_view(r@) == pair_lines_of(self@),
    {
        let p = self.listed_pairs();
        let mut out: Vec<String> = Vec::new();
        if p.len() == 0 {
            push_line(&mut out, owned("(无匹配项)"));
            assert(lines_view(out@) =~= seq!["(无匹配项)"@]);
            return out;
        }
        let ghost rows = self@.kv_data;
        let mut i: usize = 0;
        assert(lines_view(out@) =~= Seq::new(0, |k: int| row_text(rows[p@[k] as int], 50, 10)));
        while i < p.len()
            invariant
                i <= p@.len(),
                rows == rows_view(self.kv_data@),
                inside(p@, rows.len()),
                lines_view(out@) == Seq::new(
                    i as nat,
                    |k: int| row_text(rows[p@[k] as int], 50, 10),
                ),
            decreases p@.len() - i,
        {
            let at: usize = p[i];
            assert(p@[i as int] < rows.len());
            let line = text_of_row(&self.kv_data[at], 50, 10);
            push_line(&mut out, line);
            i += 1;
            assert(lines_view(out@) =~= Seq::new(
                i as nat,
                |k: int| row_text(rows[p@[k] as int], 50, 10),
            ));
        }
        out
    }
}

// ---------------------------------------------------------------------------------------------
// The listed tensors
// ---------------------------------------------------------------------------------------------

/// How many tensors are listed.
pub open spec fn listed_tensors(m: ModelPanel) -> nat {
    if m.show_all_tensors || m.tensor_data.len() <= TENSOR_LIMIT {
        m.tensor_data.len()
    } else {
        TENSOR_LIMIT as nat
    }
}

/// The lines of the listed tensors; where some are left out, one that says how many.
pub open spec fn tensor_lines_of(m: ModelPanel) -> Seq<Seq<char>> {
    let n = listed_tensors(m);
    let rows = Seq::new(n, |i: int| row_text(m.tensor_data[i], 50, 25));
    if n < m.tensor_data.len() {
        rows.push(
            "... 还有 "@ + dec((m.tensor_data.len() - n) as nat) + " 个张量 (勾选\"显示全部\"查看)"@,
        )
    } else {
        rows
    }
}

impl ModelView {
    /// The lines of the listed tensors.
    pub fn tensor_lines(&self) -> (r: Vec<String>)
        ensures
            lines_view(r@) == tensor_lines_of(self@),
    {
        let total: usize = self.tensor_data.len();
        let n: usize = if self.show_all_tensors || total <= TENSOR_LIMIT {
            total
        } else {
            TENSOR_LIMIT
        };
        let ghost rows = self@.tensor_data;
        let mut out: Vec<String> = Vec::new();
        let mut i: usize = 0;
        assert(lines_view(out@) =~= Seq::new(0, |k: int| row_text(rows[k], 50, 25)));
        while i < n
            invariant
                i <= n <= self.tensor_data@.len(),
                rows == rows_view(self.tensor_data@),
                lines_view(out@) == Seq::new(i as nat, |k: int| row_text(rows[k], 50, 25)),
            decreases n - i,
        {
            let line = text_of_row(&self.tensor_data[i], 50, 25);
            push_line(&mut out, line);
            i += 1;
            assert(lines_view(out@) =~= Seq::new(i as nat, |k: int| row_text(rows[k], 50, 25)));
        }
        if n < total {
            let mut m = owned("... 还有 ");
            push_dec(&mut m, (total - n) as u64);
            m.append(" 个张量 (勾选\"显示全部\"查看)");
            push_line(&mut out, m);
        }
        out
    }
}

// ---------------------------------------------------------------------------------------------
// Questions about the vocabulary
// ---------------------------------------------------------------------------------------------

/// The number that a text of decimal digits is.
pub open spec fn number_of(s: Seq<char>) -> Option<nat>
    decreases s.len(),
{
    if s.len() == 0 {
        None
    } else {
        let d = s.last() as u32 - 48;
        if 0 <= d < 10 {
            if s.len() == 1 {
                Some(d as nat)
            } else {
                match number_of(s.drop_last()) {
                    Some(n) => Some(n * 10 + d as nat),
                    None => None,
                }
            }
        } else {
            None
        }
    }
}

/// The place that a text of decimal digits names in a list of `len`.
fn parse_place(s: &str, len: usize) -> (r: Option<usize>)
    ensures
        match number_of(s@) {
            Some(n) => if n < len {
                r is Some && r->Some_0 == n
            } else {
                r is None
            },
            None => r is None,
        },
{
    let chars = chars_of(s);
    if chars.len() == 0 {
        return None;
    }
    let mut value: u128 = 0;
    let mut large = false;
    let mut i: usize = 0;
    while i < chars.len()
        invariant
            i <= chars@.len(),
            0 < chars@.len(),
            chars@ == s@,
            i > 0 ==> number_of(chars@.take(i as int)) is Some,
            i > 0 && !large ==> number_of(chars@.take(i as int))->Some_0 == value && value < len,
            i > 0 && large ==> number_of(chars@.take(i as int))->Some_0 >= len,
            i == 0 ==> value == 0 && !large,
        decreases chars@.len() - i,
    {
        let c: u32 = chars[i] as u32;
        let ghost next = chars@.take(i + 1);
        assert(next.last() == chars@[i as int]);
        assert(next.drop_last() =~= chars@.take(i as int));
        if c < 48 || c > 57 {
            proof {
                lemma_bad_digit(chars@, i as int);
            }
            return None;
        }
        let d: u128 = (c - 48) as u128;
        proof {
            let before = number_of(chars@.take(i as int))->Some_0;
            if i > 0 {
                assert(number_of(next) == Some(before * 10 + d as nat));
            } else {
                assert(number_of(next) == Some(d as nat));
            }
        }
        if !large {
            value = value * 10 + d;
            if value >= len as u128 {
                large = true;
            }
        }
        i += 1;
    }
    assert(chars@.take(i as int) =~= s@);
    if large {
        None
    } else {
        Some(value as usize)
    }
}

proof fn lemma_bad_digit(s: Seq<char>, i: int)
    requires
        0 <= i < s.len(),
        !(48 <= s[i] as u32 <= 57),
    ensures
        number_of(s) is None,
    decreases s.len(),
{
    if i < s.len() - 1 {
        lemma_bad_digit(s.drop_last(), i);
    }
}

/// The first place of a string in a list.
pub open spec fn first_place(v: Seq<Seq<char>>, s: Seq<char>) -> Option<int>
    decreases v.len(),
{
    if v.len() == 0 {
        None
    } else if v[0] == s {
        Some(0)
    } else {
        match first_place(v.drop_first(), s) {
            Some(i) => Some(i + 1),
            None => None,
        }
    }
}

/// A token that was found, or that none was.
pub open spec fn found_text(id: Option<int>, s: Seq<char>) -> Seq<char> {
    match id {
        Some(i) => "ID="@ + dec(i as nat) + "  字符串=\""@ + s + "\""@,
        None => "未找到"@,
    }
}

/// The answer to the questions: the token with the id, where one is asked for, and else the id of
/// the token.
pub open spec fn answer_of(m: ModelPanel) -> Seq<char> {
    if m.token_id_query.len() > 0 {
        match number_of(m.token_id_query) {
            Some(n) => if n < m.vocab.len() {
                found_text(Some(n as int), m.vocab[n as int])
            } else {
                found_text(None, Seq::empty())
            },
            None => found_text(None, Seq::empty()),
        }
    } else {
        found_text(first_place(m.vocab, m.token_str_query), m.token_str_query)
    }
}

fn token_text(id: usize, s: &str) -> (r: String)
    ensures
        r@ == found_text(Some(id as int), s@),
{
    let mut r = owned("ID=");
    push_dec(&mut r, id as u64);
    r.append("  字符串=\"");
    r.append(s);
    r.append("\"");
    r
}

impl ModelView {
    fn find_token(&self) -> (r: Option<usize>)
        ensures
            match first_place(self@.vocab, self@.token_str_query) {
                Some(i) => r is Some && r->Some_0 == i,
                None => r is None,
            },
    {
        let ghost all = self@.vocab;
        let ghost s = self@.token_str_query;
        let mut i: usize = 0;
        assert(all.skip(0) =~= all);
        while i < self.vocab.len()
            invariant
                i <= self.vocab@.len(),
                all == lines_view(self.vocab@),
                s == self.token_str_query@,
                first_place(all, s) == (match first_place(all.skip(i as int), s) {
                    Some(k) => Some(k + i),
                    None => None::<int>,
                }),
            decreases self.vocab@.len() - i,
        {
            assert(all.skip(i as int)[0] == all[i as int]);
            assert(all.skip(i as int).drop_first() =~= all.skip(i + 1));
            if same(self.vocab[i].as_str(), self.token_str_query.as_str()) {
                return Some(i);
            }
            i += 1;
        }
        None
    }

    /// Answers the questions about the vocabulary.
    pub fn query_tokens(&mut self)
        ensures
            final(self)@ == (ModelPanel { token_result: answer_of(old(self)@), ..old(self)@ }),
    {
        let text = if !self.token_id_query.as_str().is_empty() {
            match parse_place(self.token_id_query.as_str(), self.vocab.len()) {
                Some(i) => token_text(i, self.vocab[i].as_str()),
                None => owned("未找到"),
            }
        } else {
            match self.find_token() {
                Some(i) => token_text(i, self.token_str_query.as_str()),
                None => owned("未找到"),
            }
        };
        self.token_result = text;
    }
}

// ---------------------------------------------------------------------------------------------
// The file for other programs
// ---------------------------------------------------------------------------------------------

/// A character in a JSON string. Quotes, backslashes and control characters are escaped; five
/// control characters have an escape of two characters, the others their number in hexadecimal.
pub open spec fn json_char(c: char) -> Seq<char> {
    if c == '"' || c == '\\' {
        seq!['\\', c]
    } else if c as u32 == 0x08 {
        seq!['\\', 'b']
    } else if c as u32 == 0x09 {
        seq!['\\', 't']
    } else if c as u32 == 0x0a {
        seq!['\\', 'n']
    } else if c as u32 == 0x0c {
        seq!['\\', 'f']
    } else if c as u32 == 0x0d {
        seq!['\\', 'r']
    } else if (c as u32) < 0x20 {
        seq!['\\', 'u'] + hex(c as nat, 4)
    } else {
        seq![c]
    }
}

/// Characters in a JSON string.
pub open spec fn json_chars(s: Seq<char>) -> Seq<char>
    decreases s.len(),
{
    if s.len() == 0 {
        Seq::empty()
    } else {
        json_chars(s.drop_last()) + json_char(s.last())
    }
}

/// A text as a JSON string, with its quotes.
pub open spec fn json_quoted(s: Seq<char>) -> Seq<char> {
    seq!['"'] + json_chars(s) + seq!['"']
}

/// `serde_json::to_string` on a string: the string in quotes, with quotes, backslashes and control
/// characters escaped and all other characters as they are. A string can always be written, so the
/// empty text never stands in for it.
#[verifier::external_body]
fn quoted(s: &str) -> (r: String)
    ensures
        r@ == json_quoted(s@),
{
    serde_json::to_string(s).unwrap_or_default()
}

/// The names of the three cells of a row.
pub struct CellNames {
    pub first: Seq<char>,
    pub second: Seq<char>,
    pub third: Seq<char>,
}

/// A row as an object.
pub open spec fn row_object(names: CellNames, row: Row) -> Seq<char> {
    "    {"@ + names.first + json_quoted(row.0) + names.second + json_quoted(row.1) + names.third
        + json_quoted(row.2) + "}"@
}

/// The first `n` rows as objects, with commas between them.
pub open spec fn row_objects(names: CellNames, rows: Seq<Row>, n: nat) -> Seq<char>
    decreases n,
{
    if n == 0 {
        Seq::empty()
    } else if n == 1 {
        row_object(names, rows[0])
    } else {
        row_objects(names, rows, (n - 1) as nat) + ",\n"@ + row_object(names, rows[n - 1])
    }
}

/// What the cells of a pair's row are called.
pub open spec fn pair_names() -> CellNames {
    CellNames { first: "\"key\": "@, second: ", \"type\": "@, third: ", \"value\": "@ }
}

/// What the cells of a tensor's row are called.
pub open spec fn tensor_names() -> CellNames {
    CellNames { first: "\"name\": "@, second: ", \"shape\": "@, third: ", \"dtype\": "@ }
}

/// The names in the summary's object.
pub open spec fn summary_names(s: SummaryView) -> Seq<char> {
    "{\n  \"summary\": {\n    \"name\": "@ + json_quoted(s.name) + ",\n    \"arch\": "@ + json_quoted(
        s.arch,
    ) + ",\n    \"model_name\": "@ + json_quoted(s.model_name)
}

/// The numbers in the summary's object.
pub open spec fn summary_numbers(s: SummaryView) -> Seq<char> {
    ",\n    \"gguf_version\": "@ + dec(s.gguf_version as nat) + ",\n    \"alignment\": "@ + dec(
        s.alignment as nat,
    ) + ",\n    \"data_offset\": "@ + dec(s.data_offset as nat) + ",\n    \"file_size\": "@ + dec(
        s.file_size as nat,
    ) + ",\n    \"tensor_count\": "@ + dec(s.tensor_count as nat) + ",\n    \"kv_count\": "@ + dec(
        s.kv_count as nat,
    ) + ",\n    \"load_ms\": "@ + dec(s.load_ms as nat)
}

/// The summary as an object.
pub open spec fn summary_object(s: SummaryView) -> Seq<char> {
    summary_names(s) + summary_numbers(s)
}

/// What the window shows of the file, as JSON; an empty object without a model.
pub open spec fn export_of(m: ModelPanel) -> Seq<char> {
    match m.summary {
        None => "{}"@,
        Some(s) => summary_object(s) + "\n  },\n  \"kv\": [\n"@ + row_objects(
            pair_names(),
            m.kv_data,
            m.kv_data.len(),
        ) + "\n  ],\n  \"tensors\": [\n"@ + row_objects(
            tensor_names(),
            m.tensor_data,
            m.tensor_data.len(),
        ) + "\n  ]\n}"@,
    }
}

fn push_rows(
    out: &mut String,
    rows: &Vec<(String, String, String)>,
    first: &str,
    second: &str,
    third: &str,
)
    ensures
        final(out)@ == old(out)@ + row_objects(
            (CellNames { first: first@, second: second@, third: third@ }),
            rows_view(rows@),
            rows@.len(),
        ),
{
    let ghost start = out@;
    let ghost names = CellNames { first: first@, second: second@, third: third@ };
    let ghost all = rows_view(rows@);
    let mut i: usize = 0;
    assert(out@ =~= start + row_objects(names, all, 0));
    while i < rows.len()
        invariant
            i <= rows@.len(),
            all == rows_view(rows@),
            names == (CellNames { first: first@, second: second@, third: third@ }),
            out@ == start + row_objects(names, all, i as nat),
        decreases rows@.len() - i,
    {
        if i > 0 {
            out.append(",\n");
        }
        out.append("    {");
        out.append(first);
        out.append(quoted(rows[i].0.as_str()).as_str());
        out.append(second);
        out.append(quoted(rows[i].1.as_str()).as_str());
        out.append(third);
        out.append(quoted(rows[i].2.as_str()).as_str());
        out.append("}");
        assert(all[i as int] == (rows@[i as int].0@, rows@[i as int].1@, rows@[i as int].2@));
        i += 1;
        assert(out@ =~= start + row_objects(names, all, i as nat));
    }
}

fn summary_names_text(s: &ModelSummary) -> (r: String)
    ensures
        r@ == summary_names(s@),
{
    let mut r = concat("{\n  \"summary\": {\n    \"name\": ", quoted(s.name.as_str()).as_str());
    r.append(",\n    \"arch\": ");
    r.append(quoted(s.arch.as_str()).as_str());
    r.append(",\n    \"model_name\": ");
    r.append(quoted(s.model_name.as_str()).as_str());
    r
}

fn summary_numbers_text(s: &ModelSummary) -> (r: String)
    ensures
        r@ == summary_numbers(s@),
{
    let mut r = owned(",\n    \"gguf_version\": ");
    push_dec(&mut r, s.gguf_version as u64);
    r.append(",\n    \"alignment\": ");
    push_dec(&mut r, s.alignment as u64);
    r.append(",\n    \"data_offset\": ");
    push_dec(&mut r, s.data_offset);
    r.append(",\n    \"file_size\": ");
    push_dec(&mut r, s.file_size);
    r.append(",\n    \"tensor_count\": ");
    push_dec(&mut r, s.tensor_count as u64);
    r.append(",\n    \"kv_count\": ");
    push_dec(&mut r, s.kv_count as u64);
    r.append(",\n    \"load_ms\": ");
    push_dec_u128(&mut r, s.load_ms);
    r
}

impl ModelView {
    /// What the window shows of the file, as JSON.
    pub fn export_json(&self) -> (r: String)
        ensures
            r@ == export_of(self@),
    {
        match &self.summary {
            None => owned("{}"),
            Some(s) => {
                let mut r = concat(
                    summary_names_text(s).as_str(),
                    summary_numbers_text(s).as_str(),
                );
                r.append("\n  },\n  \"kv\": [\n");
                push_rows(&mut r, &self.kv_data, "\"key\": ", ", \"type\": ", ", \"value\": ");
                r.append("\n  ],\n  \"tensors\": [\n");
                push_rows(
                    &mut r,
                    &self.tensor_data,
                    "\"name\": ",
                    ", \"shape\": ",
                    ", \"dtype\": ",
                );
                r.append("\n  ]\n}");
                r
            },
        }
    }
}

} // verus!
