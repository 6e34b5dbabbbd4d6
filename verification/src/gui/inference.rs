//! What the window asks of the model and what it is told.
use vstd::prelude::*;
use vstd::string::*;
use crate::error::{error_text, ErrorView, GgufError, GgufResult};
use crate::file::{string_value, FileView, GgufFile};
use crate::float::{f32_bits_to_f64, f64_of_f32};
use crate::infer::model::hparams::{HParams, HParamsView};
use crate::infer::sampler::SamplerConfig;
use crate::tensor::TensorView;
use crate::text::{dec_int, dec_string, lines_view, listed, owned, push_dec_int, push_listed};
use crate::types::{
    ggml_type_name, lemma_array_view, pieces_view, values_view, GgufValue, Piece, PieceView,
    ValueView,
};

verus! {

// ---------------------------------------------------------------------------------------------
// Commands
// ---------------------------------------------------------------------------------------------

/// What the window asks of the model.
#[derive(Debug)]
pub enum UiCommand {
    /// To load a model.
    LoadModel { path: String, sampler: SamplerConfig },
    /// To continue a prompt.
    Prompt { text: String, max_tokens: usize, sampler: SamplerConfig, stream: bool },
    /// To answer a message of the dialogue.
    Chat { text: String, max_tokens: usize, sampler: SamplerConfig },
    /// To forget the dialogue.
    Reset,
    /// To put the model away.
    Unload,
    /// To end.
    Quit,
}

/// A [`UiCommand`] with its strings as sequences of characters.
pub enum CommandView {
    LoadModel { path: Seq<char>, sampler: SamplerConfig },
    Prompt { text: Seq<char>, max_tokens: usize, sampler: SamplerConfig, stream: bool },
    Chat { text: Seq<char>, max_tokens: usize, sampler: SamplerConfig },
    Reset,
    Unload,
    Quit,
}

impl View for UiCommand {
    type V = CommandView;

    open spec fn view(&self) -> CommandView {
        match *self {
            UiCommand::LoadModel { path, sampler } => CommandView::LoadModel {
                path: path@,
                sampler,
            },
            UiCommand::Prompt { text, max_tokens, sampler, stream } => CommandView::Prompt {
                text: text@,
                max_tokens,
                sampler,
                stream,
            },
            UiCommand::Chat { text, max_tokens, sampler } => CommandView::Chat {
                text: text@,
                max_tokens,
                sampler,
            },
            UiCommand::Reset => CommandView::Reset,
            UiCommand::Unload => CommandView::Unload,
            UiCommand::Quit => CommandView::Quit,
        }
    }
}

/// What is done about a command.
#[derive(Debug)]
pub enum Plan {
    /// A model is loaded from a file.
    Load { path: String, sampler: SamplerConfig },
    /// A prompt is continued, and the text is told as it is written where `stream` says so.
    Complete { text: String, max_tokens: usize, sampler: SamplerConfig, stream: bool },
    /// A message is answered.
    Answer { text: String, max_tokens: usize, sampler: SamplerConfig },
    /// The dialogue is forgotten.
    Forget,
    /// The model is put away, and its memory with it.
    Release,
    /// The window is told that it cannot be done, and why.
    Refuse(String),
    /// Nothing.
    Nothing,
}

/// A [`Plan`] with its strings as sequences of characters.
pub enum PlanView {
    Load { path: Seq<char>, sampler: SamplerConfig },
    Complete { text: Seq<char>, max_tokens: usize, sampler: SamplerConfig, stream: bool },
    Answer { text: Seq<char>, max_tokens: usize, sampler: SamplerConfig },
    Forget,
    Release,
    Refuse(Seq<char>),
    Nothing,
}

impl View for Plan {
    type V = PlanView;

    open spec fn view(&self) -> PlanView {
        match *self {
            Plan::Load { path, sampler } => PlanView::Load { path: path@, sampler },
            Plan::Complete { text, max_tokens, sampler, stream } => PlanView::Complete {
                text: text@,
                max_tokens,
                sampler,
                stream,
            },
            Plan::Answer { text, max_tokens, sampler } => PlanView::Answer {
                text: text@,
                max_tokens,
                sampler,
            },
            Plan::Forget => PlanView::Forget,
            Plan::Release => PlanView::Release,
            Plan::Refuse(s) => PlanView::Refuse(s@),
            Plan::Nothing => PlanView::Nothing,
        }
    }
}

/// What is done about a command: anything that needs a model is refused where none is loaded, and
/// forgetting a dialogue that cannot have been, or putting away a model that is not there, is
/// nothing.
pub open spec fn plan_of(c: CommandView, loaded: bool) -> PlanView {
    match c {
        CommandView::LoadModel { path, sampler } => PlanView::Load { path, sampler },
        CommandView::Prompt { text, max_tokens, sampler, stream } => if loaded {
            PlanView::Complete { text, max_tokens, sampler, stream }
        } else {
            PlanView::Refuse("模型未加载"@)
        },
        CommandView::Chat { text, max_tokens, sampler } => if loaded {
            PlanView::Answer { text, max_tokens, sampler }
        } else {
            PlanView::Refuse("模型未加载"@)
        },
        CommandView::Reset => if loaded {
            PlanView::Forget
        } else {
            PlanView::Nothing
        },
        CommandView::Unload => if loaded {
            PlanView::Release
        } else {
            PlanView::Nothing
        },
        CommandView::Quit => PlanView::Nothing,
    }
}

/// What is done about a command, with or without a model.
pub fn handle_command(cmd: UiCommand, loaded: bool) -> (r: Plan)
    ensures
        r@ == plan_of(cmd@, loaded),
{
    match cmd {
        UiCommand::LoadModel { path, sampler } => Plan::Load { path, sampler },
        UiCommand::Prompt { text, max_tokens, sampler, stream } => if loaded {
            Plan::Complete { text, max_tokens, sampler, stream }
        } else {
            Plan::Refuse(owned("模型未加载"))
        },
        UiCommand::Chat { text, max_tokens, sampler } => if loaded {
            Plan::Answer { text, max_tokens, sampler }
        } else {
            Plan::Refuse(owned("模型未加载"))
        },
        UiCommand::Reset => if loaded {
            Plan::Forget
        } else {
            Plan::Nothing
        },
        UiCommand::Unload => if loaded {
            Plan::Release
        } else {
            Plan::Nothing
        },
        UiCommand::Quit => Plan::Nothing,
    }
}

// ---------------------------------------------------------------------------------------------
// Answers
// ---------------------------------------------------------------------------------------------

/// A row of three cells.
pub type Row = (Seq<char>, Seq<char>, Seq<char>);

/// The views of rows.
pub open spec fn rows_view(s: Seq<(String, String, String)>) -> Seq<Row> {
    Seq::new(s.len(), |i: int| (s[i].0@, s[i].1@, s[i].2@))
}

/// What is told of a model that was loaded.
#[derive(Debug, Clone)]
pub struct LoadedInfo {
    pub name: String,
    pub arch: String,
    pub model_name: String,
    pub layers: u32,
    pub embed_dim: u32,
    pub vocab_size: u32,
    pub load_ms: u128,
    pub tensor_count: usize,
    pub kv_count: usize,
    pub gguf_version: u32,
    pub alignment: u32,
    pub data_offset: u64,
    pub file_size: u64,
    pub ctx_limit: usize,
    /// Key, type and value of each pair.
    pub kv_data: Vec<(String, String, String)>,
    /// Name, shape and type of each tensor.
    pub tensor_data: Vec<(String, String, String)>,
    /// The tokens of the vocabulary.
    pub vocab: Vec<String>,
}

/// A [`LoadedInfo`] with its strings and lists as sequences.
pub struct LoadedView {
    pub name: Seq<char>,
    pub arch: Seq<char>,
    pub model_name: Seq<char>,
    pub layers: u32,
    pub embed_dim: u32,
    pub vocab_size: u32,
    pub load_ms: u128,
    pub tensor_count: usize,
    pub kv_count: usize,
    pub gguf_version: u32,
    pub alignment: u32,
    pub data_offset: u64,
    pub file_size: u64,
    pub ctx_limit: usize,
    pub kv_data: Seq<Row>,
    pub tensor_data: Seq<Row>,
    pub vocab: Seq<Seq<char>>,
}

impl View for LoadedInfo {
    type V = LoadedView;

    open spec fn view(&self) -> LoadedView {
        LoadedView {
            name: self.name@,
            arch: self.arch@,
            model_name: self.model_name@,
            layers: self.layers,
            embed_dim: self.embed_dim,
            vocab_size: self.vocab_size,
            load_ms: self.load_ms,
            tensor_count: self.tensor_count,
            kv_count: self.kv_count,
            gguf_version: self.gguf_version,
            alignment: self.alignment,
            data_offset: self.data_offset,
            file_size: self.file_size,
            ctx_limit: self.ctx_limit,
            kv_data: rows_view(self.kv_data@),
            tensor_data: rows_view(self.tensor_data@),
            vocab: lines_view(self.vocab@),
        }
    }
}

/// What the window is told.
#[derive(Debug, Clone)]
pub enum InferMsg {
    /// A model was loaded.
    ModelLoaded(LoadedInfo),
    /// A model could not be loaded.
    LoadError { message: String },
    /// More text of a run.
    Token { id: u32, text: String },
    /// A run is at its end.
    Done {
        full_text: String,
        elapsed_ms: u128,
        ctx_len: usize,
        ctx_limit: usize,
        token_count: usize,
    },
    /// Something went wrong.
    Error { message: String },
    /// A run was stopped.
    Stopped,
    /// The dialogue was forgotten.
    ResetDone,
}

/// An [`InferMsg`] with its strings and lists as sequences.
pub enum MsgView {
    ModelLoaded(LoadedView),
    LoadError { message: Seq<char> },
    Token { id: u32, text: Seq<char> },
    Done {
        full_text: Seq<char>,
        elapsed_ms: u128,
        ctx_len: usize,
        ctx_limit: usize,
        token_count: usize,
    },
    Error { message: Seq<char> },
    Stopped,
    ResetDone,
}

impl View for InferMsg {
    type V = MsgView;

    open spec fn view(&self) -> MsgView {
        match *self {
            InferMsg::ModelLoaded(l) => MsgView::ModelLoaded(l@),
            InferMsg::LoadError { message } => MsgView::LoadError { message: message@ },
            InferMsg::Token { id, text } => MsgView::Token { id, text: text@ },
            InferMsg::Done { full_text, elapsed_ms, ctx_len, ctx_limit, token_count } =>
                MsgView::Done {
                full_text: full_text@,
                elapsed_ms,
                ctx_len,
                ctx_limit,
                token_count,
            },
            InferMsg::Error { message } => MsgView::Error { message: message@ },
            InferMsg::Stopped => MsgView::Stopped,
            InferMsg::ResetDone => MsgView::ResetDone,
        }
    }
}

/// How many tokens a run is said to have had: of a prompt as many as it was allowed, of an answer
/// none, for it is counted as it is told.
pub open spec fn token_count_of(plan: PlanView) -> usize {
    match plan {
        PlanView::Complete { max_tokens, .. } => max_tokens,
        _ => 0,
    }
}

/// What the window is told at the end of a planned run, at which the model held `held` tokens of a
/// view of `ctx_limit`: what went wrong, that it was stopped, or the text.
pub open spec fn end_of_run(
    plan: PlanView,
    result: Result<Seq<char>, ErrorView>,
    stopped: bool,
    elapsed_ms: u128,
    held: usize,
    ctx_limit: usize,
) -> MsgView {
    match result {
        Err(e) => MsgView::Error { message: error_text(e) },
        Ok(full_text) => if stopped {
            MsgView::Stopped
        } else {
            MsgView::Done {
                full_text,
                elapsed_ms,
                ctx_len: held,
                ctx_limit,
                token_count: token_count_of(plan),
            }
        },
    }
}

/// What the window is told at the end of a planned run.
pub fn run_message(
    plan: &Plan,
    result: GgufResult<String>,
    stopped: bool,
    elapsed_ms: u128,
    held: usize,
    ctx_limit: usize,
) -> (r: InferMsg)
    ensures
        r@ == end_of_run(
            plan@,
            (match result {
                Ok(t) => Ok(t@),
                Err(e) => Err(e@),
            }),
            stopped,
            elapsed_ms,
            held,
            ctx_limit,
        ),
{
    match result {
        Err(e) => InferMsg::Error { message: e.to_string() },
        Ok(full_text) => if stopped {
            InferMsg::Stopped
        } else {
            let token_count: usize = match plan {
                Plan::Complete { max_tokens, .. } => *max_tokens,
                _ => 0,
            };
            InferMsg::Done { full_text, elapsed_ms, ctx_len: held, ctx_limit, token_count }
        },
    }
}

/// What the window is told of a model that could not be loaded.
pub fn load_error(e: &GgufError) -> (r: InferMsg)
    ensures
        r@ == (MsgView::LoadError { message: error_text(e@) }),
{
    InferMsg::LoadError { message: e.to_string() }
}

// ---------------------------------------------------------------------------------------------
// Rows
// ---------------------------------------------------------------------------------------------

/// How many elements of an array a cell shows.
pub const CELL_ELEMENTS: usize = 8;

/// A value in a cell: numbers and strings as they are (a number that is not an integer with four
/// digits behind the point), and the first elements of an array.
pub open spec fn cell_text(v: ValueView) -> Seq<PieceView>
    decreases v, 0nat,
{
    match v {
        ValueView::U8(x) => seq![PieceView::Text(dec_int(x as int))],
        ValueView::I8(x) => seq![PieceView::Text(dec_int(x as int))],
        ValueView::U16(x) => seq![PieceView::Text(dec_int(x as int))],
        ValueView::I16(x) => seq![PieceView::Text(dec_int(x as int))],
        ValueView::U32(x) => seq![PieceView::Text(dec_int(x as int))],
        ValueView::I32(x) => seq![PieceView::Text(dec_int(x as int))],
        ValueView::U64(x) => seq![PieceView::Text(dec_int(x as int))],
        ValueView::I64(x) => seq![PieceView::Text(dec_int(x as int))],
        ValueView::F32(b) => seq![PieceView::Number(f64_of_f32(b))],
        ValueView::F64(b) => seq![PieceView::Number(b)],
        ValueView::Bool(b) => seq![
            PieceView::Text(
                if b {
                    "true"@
                } else {
                    "false"@
                },
            ),
        ],
        ValueView::String(s) => seq![PieceView::Text(s)],
        ValueView::Array(_, data) => if data.len() <= CELL_ELEMENTS {
            seq![PieceView::Text("["@)] + cells_joined(data, data.len()) + seq![
                PieceView::Text("]"@),
            ]
        } else {
            seq![PieceView::Text("["@)] + cells_joined(data, CELL_ELEMENTS as nat) + seq![
                PieceView::Text(", ...]"@),
            ]
        },
    }
}

/// The first `k` elements, with commas between them.
pub open spec fn cells_joined(data: Seq<ValueView>, k: nat) -> Seq<PieceView>
    decreases data, k,
{
    if k == 0 || k > data.len() {
        Seq::empty()
    } else if k == 1 {
        cell_text(data[0])
    } else {
        cells_joined(data, (k - 1) as nat) + seq![PieceView::Text(", "@)] + cell_text(data[k - 1])
    }
}

fn push_cell(out: &mut Vec<Piece>, s: String)
    ensures
        pieces_view(final(out)@) == pieces_view(old(out)@).push(PieceView::Text(s@)),
{
    out.push(Piece::Text(s));
    assert(pieces_view(out@) =~= pieces_view(old(out)@).push(PieceView::Text(s@)));
}

fn push_number(out: &mut Vec<Piece>, b: u64)
    ensures
        pieces_view(final(out)@) == pieces_view(old(out)@).push(PieceView::Number(b)),
{
    out.push(Piece::Number(b));
    assert(pieces_view(out@) =~= pieces_view(old(out)@).push(PieceView::Number(b)));
}

fn unsigned_text(n: u64) -> (r: String)
    ensures
        r@ == dec_int(n as int),
{
    dec_string(n)
}

fn signed_text(n: i64) -> (r: String)
    ensures
        r@ == dec_int(n as int),
{
    let mut s = String::new();
    push_dec_int(&mut s, n);
    assert(s@ =~= dec_int(n as int));
    s
}

fn push_value(out: &mut Vec<Piece>, v: &GgufValue)
    ensures
        pieces_view(final(out)@) == pieces_view(old(out)@) + cell_text(v@),
    decreases *v,
{
    match v {
        GgufValue::U8(x) => push_cell(out, unsigned_text(*x as u64)),
        GgufValue::U16(x) => push_cell(out, unsigned_text(*x as u64)),
        GgufValue::U32(x) => push_cell(out, unsigned_text(*x as u64)),
        GgufValue::U64(x) => push_cell(out, unsigned_text(*x)),
        GgufValue::I8(x) => push_cell(out, signed_text(*x as i64)),
        GgufValue::I16(x) => push_cell(out, signed_text(*x as i64)),
        GgufValue::I32(x) => push_cell(out, signed_text(*x as i64)),
        GgufValue::I64(x) => push_cell(out, signed_text(*x)),
        GgufValue::F32(b) => push_number(out, f32_bits_to_f64(*b)),
        GgufValue::F64(b) => push_number(out, *b),
        GgufValue::Bool(b) => if *b {
            push_cell(out, owned("true"));
        } else {
            push_cell(out, owned("false"));
        },
        GgufValue::String(s) => push_cell(out, owned(s.as_str())),
        GgufValue::Array(a) => {
            proof {
                lemma_array_view(*a);
            }
            let ghost views = values_view(a.data@);
            let n: usize = a.data.len();
            let shown: usize = if n <= CELL_ELEMENTS {
                n
            } else {
                CELL_ELEMENTS
            };
            push_cell(out, owned("["));
            let ghost start = pieces_view(out@);
            let mut i: usize = 0;
            while i < shown
                invariant
                    i <= shown <= a.data@.len(),
                    views == values_view(a.data@),
                    *v == GgufValue::Array(*a),
                    pieces_view(out@) == start + cells_joined(views, i as nat),
                decreases shown - i,
            {
                if i > 0 {
                    push_cell(out, owned(", "));
                }
                let elem: &GgufValue = &a.data[i];
                assert(decreases_to!(*v => *elem)) by {
                    assert(decreases_to!(*v => v->Array_0));
                    assert(decreases_to!(*a => a.data));
                    assert(decreases_to!(a.data => a.data[i as int]));
                }
                push_value(out, elem);
                assert(views[i as int] == elem@);
                i += 1;
                assert(pieces_view(out@) =~= start + cells_joined(views, i as nat));
            }
            if n <= CELL_ELEMENTS {
                push_cell(out, owned("]"));
            } else {
                push_cell(out, owned(", ...]"));
            }
        },
    }
    assert(pieces_view(out@) =~= pieces_view(old(out)@) + cell_text(v@));
}

/// A value in a cell, in pieces; a [`Piece::Number`] has four digits behind the point.
pub fn value_to_string(v: &GgufValue) -> (r: Vec<Piece>)
    ensures
        pieces_view(r@) == cell_text(v@),
{
    let mut out: Vec<Piece> = Vec::new();
    push_value(&mut out, v);
    assert(pieces_view(out@) =~= cell_text(v@));
    out
}

/// The row of a tensor.
pub open spec fn tensor_row(t: TensorView) -> Row {
    (t.name, listed(t.shape), ggml_type_name(t.dtype))
}

/// The rows of a file's tensors.
pub fn tensor_rows(file: &GgufFile) -> (r: Vec<(String, String, String)>)
    ensures
        rows_view(r@) == Seq::new(file@.tensors.len(), |i: int| tensor_row(file@.tensors[i])),
{
    let mut r: Vec<(String, String, String)> = Vec::new();
    let mut i: usize = 0;
    while i < file.tensors.len()
        invariant
            i <= file.tensors@.len(),
            rows_view(r@) == Seq::new(i as nat, |k: int| tensor_row(file@.tensors[k])),
        decreases file.tensors@.len() - i,
    {
        let t = &file.tensors[i];
        let mut shape = String::new();
        push_listed(&mut shape, &t.shape);
        assert(shape@ =~= listed(t.shape@));
        let ghost before = rows_view(r@);
        r.push((owned(t.name.as_str()), shape, t.dtype.to_string()));
        i += 1;
        assert(rows_view(r@) =~= before.push(tensor_row(file@.tensors[i - 1])));
        assert(rows_view(r@) =~= Seq::new(i as nat, |k: int| tensor_row(file@.tensors[k])));
    }
    r
}

/// What is told of a model that was loaded: `file_name` stands in for a model without a name, and
/// the rows of its pairs and its tokens are given.
pub open spec fn loaded_info(
    f: FileView,
    h: HParamsView,
    file_name: Seq<char>,
    load_ms: u128,
    kv_data: Seq<Row>,
    vocab: Seq<Seq<char>>,
) -> LoadedView {
    let named = string_value(f.kv, "general.name"@);
    LoadedView {
        name: match named {
            Some(s) => s,
            None => file_name,
        },
        arch: h.arch,
        model_name: match named {
            Some(s) => s,
            None => Seq::empty(),
        },
        layers: h.n_layers,
        embed_dim: h.embed_dim,
        vocab_size: h.vocab_size,
        load_ms,
        tensor_count: f.tensors.len() as usize,
        kv_count: f.kv.len() as usize,
        gguf_version: f.header.version,
        alignment: f.alignment,
        data_offset: f.data_offset,
        file_size: f.file_size,
        ctx_limit: h.context_length as usize,
        kv_data,
        tensor_data: Seq::new(f.tensors.len(), |i: int| tensor_row(f.tensors[i])),
        vocab,
    }
}

/// What the window is told of a model that was loaded.
pub fn loaded_message(
    file: &GgufFile,
    hp: &HParams,
    file_name: &str,
    load_ms: u128,
    kv_data: Vec<(String, String, String)>,
    vocab: Vec<String>,
) -> (r: InferMsg)
    ensures
        r@ == MsgView::ModelLoaded(
            loaded_info(file@, hp@, file_name@, load_ms, rows_view(kv_data@), lines_view(vocab@)),
        ),
{
    let name = match file.model_name() {
        Some(s) => owned(s),
        None => owned(file_name),
    };
    let model_name = match file.model_name() {
        Some(s) => owned(s),
        None => String::new(),
    };
    InferMsg::ModelLoaded(
        LoadedInfo {
            name,
            arch: owned(hp.arch.as_str()),
            model_name,
            layers: hp.n_layers,
            embed_dim: hp.embed_dim,
            vocab_size: hp.vocab_size,
            load_ms,
            tensor_count: file.tensors.len(),
            kv_count: file.kv.len(),
            gguf_version: file.header.version,
            alignment: file.alignment,
            data_offset: file.data_offset,
            file_size: file.file_size,
            ctx_limit: hp.context_length as usize,
            kv_data,
            tensor_data: tensor_rows(file),
            vocab,
        },
    )
}

} // verus!
