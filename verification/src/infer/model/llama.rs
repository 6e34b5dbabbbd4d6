//! The tensors of a model: their names, and how their data is stored.
use vstd::prelude::*;
use vstd::string::*;
use crate::error::{ErrorView, GgufError, GgufResult};
use crate::file::{first_tensor, FileView, GgufFile};
use crate::tensor::TensorView;
use crate::text::{concat, dec, has_prefix, owned, push_dec, starts_with};
use crate::infer::model::hparams::{
    arch_key, hparams_of, key, parse, supported_arch, HParams, HParamsView,
};

verus! {

// ---------------------------------------------------------------------------------------------
// Architectures
// ---------------------------------------------------------------------------------------------

/// The families of architectures that can be run.
#[derive(Debug, Clone, Copy, PartialEq, Eq, Structural)]
pub enum Prefix {
    Llama,
    Qwen2,
    Mistral,
}

/// The family of an architecture, by how its name starts.
pub open spec fn prefix_of(arch: Seq<char>) -> Option<Prefix> {
    if has_prefix(arch, "llama"@) {
        Some(Prefix::Llama)
    } else if has_prefix(arch, "qwen2"@) || has_prefix(arch, "qwen3"@) {
        Some(Prefix::Qwen2)
    } else if has_prefix(arch, "mistral"@) {
        Some(Prefix::Mistral)
    } else {
        None
    }
}

/// The name of a family.
pub open spec fn prefix_name(p: Prefix) -> Seq<char> {
    match p {
        Prefix::Llama => "llama"@,
        Prefix::Qwen2 => "qwen2"@,
        Prefix::Mistral => "mistral"@,
    }
}

impl Prefix {
    /// The name of this family.
    pub fn as_str(&self) -> (r: &'static str)
        ensures
            r@ == prefix_name(*self),
    {
        match self {
            Prefix::Llama => "llama",
            Prefix::Qwen2 => "qwen2",
            Prefix::Mistral => "mistral",
        }
    }

    /// The family of the architecture `arch`.
    pub fn from_arch(arch: &str) -> (r: GgufResult<Prefix>)
        ensures
            match prefix_of(arch@) {
                Some(p) => r == Ok::<Prefix, GgufError>(p),
                None => r is Err && r->Err_0@ == ErrorView::UnsupportedArchitecture(arch@),
            },
    {
        if starts_with(arch, "llama") {
            Ok(Prefix::Llama)
        } else if starts_with(arch, "qwen2") {
            Ok(Prefix::Qwen2)
        } else if starts_with(arch, "qwen3") {
            Ok(Prefix::Qwen2)
        } else if starts_with(arch, "mistral") {
            Ok(Prefix::Mistral)
        } else {
            Err(GgufError::UnsupportedArchitecture(owned(arch)))
        }
    }
}

/// Every architecture whose sizes can be read has a family, and no other has.
pub proof fn supported_means_family(arch: Seq<char>)
    ensures
        supported_arch(arch) <==> prefix_of(arch) is Some,
{
}

// ---------------------------------------------------------------------------------------------
// Names
// ---------------------------------------------------------------------------------------------

/// The names of the tensors outside the layers.
#[derive(Debug, Clone)]
pub struct TopNames {
    pub token_embd: String,
    pub output: String,
    pub output_norm: String,
}

/// [`TopNames`] as sequences of characters.
pub struct TopNamesView {
    pub token_embd: Seq<char>,
    pub output: Seq<char>,
    pub output_norm: Seq<char>,
}

impl View for TopNames {
    type V = TopNamesView;

    open spec fn view(&self) -> TopNamesView {
        TopNamesView {
            token_embd: self.token_embd@,
            output: self.output@,
            output_norm: self.output_norm@,
        }
    }
}

/// The names of the tensors of one layer; biases need not be there.
#[derive(Debug, Clone)]
pub struct LayerNames {
    pub wq: String,
    pub wk: String,
    pub wv: String,
    pub wo: String,
    pub b_q: Option<String>,
    pub b_k: Option<String>,
    pub b_v: Option<String>,
    pub w_ffn_up: String,
    pub w_ffn_gate: String,
    pub w_ffn_down: String,
    pub norm_attn: String,
    pub norm_ffn: String,
}

/// [`LayerNames`] as sequences of characters.
pub struct LayerNamesView {
    pub wq: Seq<char>,
    pub wk: Seq<char>,
    pub wv: Seq<char>,
    pub wo: Seq<char>,
    pub b_q: Option<Seq<char>>,
    pub b_k: Option<Seq<char>>,
    pub b_v: Option<Seq<char>>,
    pub w_ffn_up: Seq<char>,
    pub w_ffn_gate: Seq<char>,
    pub w_ffn_down: Seq<char>,
    pub norm_attn: Seq<char>,
    pub norm_ffn: Seq<char>,
}

/// A name that need not be there.
pub open spec fn name_view(n: Option<String>) -> Option<Seq<char>> {
    match n {
        Some(s) => Some(s@),
        None => None,
    }
}

impl View for LayerNames {
    type V = LayerNamesView;

    open spec fn view(&self) -> LayerNamesView {
        LayerNamesView {
            wq: self.wq@,
            wk: self.wk@,
            wv: self.wv@,
            wo: self.wo@,
            b_q: name_view(self.b_q),
            b_k: name_view(self.b_k),
            b_v: name_view(self.b_v),
            w_ffn_up: self.w_ffn_up@,
            w_ffn_gate: self.w_ffn_gate@,
            w_ffn_down: self.w_ffn_down@,
            norm_attn: self.norm_attn@,
            norm_ffn: self.norm_ffn@,
        }
    }
}

/// The views of layers in a row.
pub open spec fn layers_view(s: Seq<LayerNames>) -> Seq<LayerNamesView> {
    Seq::new(s.len(), |i: int| s[i]@)
}

/// The name under which a tensor is found: its first name, or else its second.
pub open spec fn found_name(
    tensors: Seq<TensorView>,
    primary: Seq<char>,
    fallback: Seq<char>,
) -> Option<Seq<char>> {
    if first_tensor(tensors, primary) is Some {
        Some(primary)
    } else if first_tensor(tensors, fallback) is Some {
        Some(fallback)
    } else {
        None
    }
}

/// A tensor that the model needs and that is not there.
pub open spec fn missing_tensor(name: Seq<char>) -> ErrorView {
    ErrorView::MissingTensor { name, kind: "tensor"@ }
}

/// The name of a tensor of layer `l` in the older style.
pub open spec fn old_name(arch: Seq<char>, l: nat, part: Seq<char>) -> Seq<char> {
    arch + "."@ + dec(l) + "."@ + part
}

/// The name of a tensor of layer `l` in the newer style.
pub open spec fn new_name(l: nat, part: Seq<char>) -> Seq<char> {
    "blk."@ + dec(l) + "."@ + part
}

/// The name under which a tensor of layer `l` is found.
pub open spec fn layer_name(
    tensors: Seq<TensorView>,
    arch: Seq<char>,
    l: nat,
    old_part: Seq<char>,
    new_part: Seq<char>,
) -> Option<Seq<char>> {
    found_name(tensors, old_name(arch, l, old_part), new_name(l, new_part))
}

/// The names of the tensors outside the layers, or the first that is missing.
pub open spec fn top_names_of(tensors: Seq<TensorView>, arch: Seq<char>) -> Result<
    TopNamesView,
    ErrorView,
> {
    match found_name(tensors, arch_key(arch, "token_embd"@), "token_embd.weight"@) {
        None => Err(missing_tensor(arch_key(arch, "token_embd"@))),
        Some(token_embd) => match found_name(
            tensors,
            arch_key(arch, "output"@),
            "output.weight"@,
        ) {
            None => Err(missing_tensor(arch_key(arch, "output"@))),
            Some(output) => match found_name(
                tensors,
                arch_key(arch, "output_norm"@),
                "output_norm.weight"@,
            ) {
                None => Err(missing_tensor(arch_key(arch, "output_norm"@))),
                Some(output_norm) => Ok(TopNamesView { token_embd, output, output_norm }),
            },
        },
    }
}

/// The names of the tensors of layer `l`, or the first that is missing.
pub open spec fn layer_names_of(tensors: Seq<TensorView>, arch: Seq<char>, l: nat) -> Result<
    LayerNamesView,
    ErrorView,
> {
    let wq = layer_name(tensors, arch, l, "attn.wq"@, "attn_q.weight"@);
    let wk = layer_name(tensors, arch, l, "attn.wk"@, "attn_k.weight"@);
    let wv = layer_name(tensors, arch, l, "attn.wv"@, "attn_v.weight"@);
    let wo = layer_name(tensors, arch, l, "attn.wo"@, "attn_output.weight"@);
    let b_q = layer_name(tensors, arch, l, "attn.b_q"@, "attn_q.bias"@);
    let b_k = layer_name(tensors, arch, l, "attn.b_k"@, "attn_k.bias"@);
    let b_v = layer_name(tensors, arch, l, "attn.b_v"@, "attn_v.bias"@);
    let w_ffn_up = layer_name(tensors, arch, l, "ffn.w1"@, "ffn_up.weight"@);
    let w_ffn_gate = layer_name(tensors, arch, l, "ffn.w2"@, "ffn_gate.weight"@);
    let w_ffn_down = layer_name(tensors, arch, l, "ffn.w3"@, "ffn_down.weight"@);
    let norm_attn = layer_name(tensors, arch, l, "attn_norm"@, "attn_norm.weight"@);
    let norm_ffn = layer_name(tensors, arch, l, "ffn_norm"@, "ffn_norm.weight"@);
    if wq is None {
        Err(missing_tensor(old_name(arch, l, "attn.wq"@)))
    } else if wk is None {
        Err(missing_tensor(old_name(arch, l, "attn.wk"@)))
    } else if wv is None {
        Err(missing_tensor(old_name(arch, l, "attn.wv"@)))
    } else if wo is None {
        Err(missing_tensor(old_name(arch, l, "attn.wo"@)))
    } else if w_ffn_up is None {
        Err(missing_tensor(old_name(arch, l, "ffn.w1"@)))
    } else if w_ffn_gate is None {
        Err(missing_tensor(old_name(arch, l, "ffn.w2"@)))
    } else if w_ffn_down is None {
        Err(missing_tensor(old_name(arch, l, "ffn.w3"@)))
    } else if norm_attn is None {
        Err(missing_tensor(old_name(arch, l, "attn_norm"@)))
    } else if norm_ffn is None {
        Err(missing_tensor(old_name(arch, l, "ffn_norm"@)))
    } else {
        Ok(
            LayerNamesView {
                wq: wq->Some_0,
                wk: wk->Some_0,
                wv: wv->Some_0,
                wo: wo->Some_0,
                b_q,
                b_k,
                b_v,
                w_ffn_up: w_ffn_up->Some_0,
                w_ffn_gate: w_ffn_gate->Some_0,
                w_ffn_down: w_ffn_down->Some_0,
                norm_attn: norm_attn->Some_0,
                norm_ffn: norm_ffn->Some_0,
            },
        )
    }
}

/// The names of the tensors of the first `n` layers, or the first that is missing.
pub open spec fn all_layers(tensors: Seq<TensorView>, arch: Seq<char>, n: nat) -> Result<
    Seq<LayerNamesView>,
    ErrorView,
>
    decreases n,
{
    if n == 0 {
        Ok(Seq::empty())
    } else {
        match all_layers(tensors, arch, (n - 1) as nat) {
            Err(e) => Err(e),
            Ok(s) => match layer_names_of(tensors, arch, (n - 1) as nat) {
                Err(e) => Err(e),
                Ok(names) => Ok(s.push(names)),
            },
        }
    }
}

/// A model as its file describes it.
pub struct ModelView {
    pub hp: HParamsView,
    pub prefix: Prefix,
    pub top_names: TopNamesView,
    pub layer_names: Seq<LayerNamesView>,
}

/// The model that a file describes: sizes first, then the names outside the layers, then those of
/// the layers.
pub open spec fn model_of(f: FileView) -> Result<ModelView, ErrorView> {
    match hparams_of(f) {
        Err(e) => Err(e),
        Ok(hp) => match prefix_of(hp.arch) {
            None => Err(ErrorView::UnsupportedArchitecture(hp.arch)),
            Some(prefix) => match top_names_of(f.tensors, hp.arch) {
                Err(e) => Err(e),
                Ok(top_names) => match all_layers(f.tensors, hp.arch, hp.n_layers as nat) {
                    Err(e) => Err(e),
                    Ok(layer_names) => Ok(ModelView { hp, prefix, top_names, layer_names }),
                },
            },
        },
    }
}

/// A model: its sizes and the names of its tensors.
#[derive(Debug)]
pub struct LlamaModel {
    pub hp: HParams,
    pub prefix: Prefix,
    pub top_names: TopNames,
    pub layer_names: Vec<LayerNames>,
}

impl View for LlamaModel {
    type V = ModelView;

    open spec fn view(&self) -> ModelView {
        ModelView {
            hp: self.hp@,
            prefix: self.prefix,
            top_names: self.top_names@,
            layer_names: layers_view(self.layer_names@),
        }
    }
}

/// The name under which a tensor is found, if it is.
fn find_opt(file: &GgufFile, primary: &str, fallback: &str) -> (r: Option<String>)
    ensures
        name_view(r) == found_name(file@.tensors, primary@, fallback@),
{
    if file.find_tensor(primary).is_some() {
        Some(owned(primary))
    } else if file.find_tensor(fallback).is_some() {
        Some(owned(fallback))
    } else {
        None
    }
}

/// The name under which a tensor that must be there is found.
fn resolve_tensor(file: &GgufFile, primary: &str, fallback: &str) -> (r: GgufResult<String>)
    ensures
        match found_name(file@.tensors, primary@, fallback@) {
            Some(n) => r is Ok && r->Ok_0@ == n,
            None => r is Err && r->Err_0@ == missing_tensor(primary@),
        },
{
    match find_opt(file, primary, fallback) {
        Some(n) => Ok(n),
        None => Err(GgufError::MissingTensor { name: owned(primary), kind: "tensor" }),
    }
}

fn old_tensor_name(arch: &str, l: usize, part: &str) -> (r: String)
    ensures
        r@ == old_name(arch@, l as nat, part@),
{
    let mut r = concat(arch, ".");
    push_dec(&mut r, l as u64);
    r.append(".");
    r.append(part);
    r
}

fn new_tensor_name(l: usize, part: &str) -> (r: String)
    ensures
        r@ == new_name(l as nat, part@),
{
    let mut r = owned("blk.");
    push_dec(&mut r, l as u64);
    r.append(".");
    r.append(part);
    r
}

/// The name under which a tensor of layer `l` that must be there is found.
fn layer_tensor(file: &GgufFile, arch: &str, l: usize, old_part: &str, new_part: &str) -> (r:
    GgufResult<String>)
    ensures
        match layer_name(file@.tensors, arch@, l as nat, old_part@, new_part@) {
            Some(n) => r is Ok && r->Ok_0@ == n,
            None => r is Err && r->Err_0@ == missing_tensor(old_name(arch@, l as nat, old_part@)),
        },
{
    let a = old_tensor_name(arch, l, old_part);
    let b = new_tensor_name(l, new_part);
    resolve_tensor(file, a.as_str(), b.as_str())
}

/// The name under which a bias of layer `l` is found, if it is.
fn layer_bias(file: &GgufFile, arch: &str, l: usize, old_part: &str, new_part: &str) -> (r: Option<
    String,
>)
    ensures
        name_view(r) == layer_name(file@.tensors, arch@, l as nat, old_part@, new_part@),
{
    let a = old_tensor_name(arch, l, old_part);
    let b = new_tensor_name(l, new_part);
    find_opt(file, a.as_str(), b.as_str())
}

/// The names of the tensors of layer `l`.
fn read_layer(file: &GgufFile, arch: &str, l: usize) -> (r: GgufResult<LayerNames>)
    ensures
        match layer_names_of(file@.tensors, arch@, l as nat) {
            Ok(n) => r is Ok && r->Ok_0@ == n,
            Err(e) => r is Err && r->Err_0@ == e,
        },
{
    let wq = match layer_tensor(file, arch, l, "attn.wq", "attn_q.weight") {
        Ok(n) => n,
        Err(e) => return Err(e),
    };
    let wk = match layer_tensor(file, arch, l, "attn.wk", "attn_k.weight") {
        Ok(n) => n,
        Err(e) => return Err(e),
    };
    let wv = match layer_tensor(file, arch, l, "attn.wv", "attn_v.weight") {
        Ok(n) => n,
        Err(e) => return Err(e),
    };
    let wo = match layer_tensor(file, arch, l, "attn.wo", "attn_output.weight") {
        Ok(n) => n,
        Err(e) => return Err(e),
    };
    let w_ffn_up = match layer_tensor(file, arch, l, "ffn.w1", "ffn_up.weight") {
        Ok(n) => n,
        Err(e) => return Err(e),
    };
    let w_ffn_gate = match layer_tensor(file, arch, l, "ffn.w2", "ffn_gate.weight") {
        Ok(n) => n,
        Err(e) => return Err(e),
    };
    let w_ffn_down = match layer_tensor(file, arch, l, "ffn.w3", "ffn_down.weight") {
        Ok(n) => n,
        Err(e) => return Err(e),
    };
    let norm_attn = match layer_tensor(file, arch, l, "attn_norm", "attn_norm.weight") {
        Ok(n) => n,
        Err(e) => return Err(e),
    };
    let norm_ffn = match layer_tensor(file, arch, l, "ffn_norm", "ffn_norm.weight") {
        Ok(n) => n,
        Err(e) => return Err(e),
    };
    let b_q = layer_bias(file, arch, l, "attn.b_q", "attn_q.bias");
    let b_k = layer_bias(file, arch, l, "attn.b_k", "attn_k.bias");
    let b_v = layer_bias(file, arch, l, "attn.b_v", "attn_v.bias");
    Ok(
        LayerNames {
            wq,
            wk,
            wv,
            wo,
            b_q,
            b_k,
            b_v,
            w_ffn_up,
            w_ffn_gate,
            w_ffn_down,
            norm_attn,
            norm_ffn,
        },
    )
}

/// The names of the tensors outside the layers.
fn read_top(file: &GgufFile, arch: &str) -> (r: GgufResult<TopNames>)
    ensures
        match top_names_of(file@.tensors, arch@) {
            Ok(n) => r is Ok && r->Ok_0@ == n,
            Err(e) => r is Err && r->Err_0@ == e,
        },
{
    let token_embd = match resolve_tensor(
        file,
        key(arch, "token_embd").as_str(),
        "token_embd.weight",
    ) {
        Ok(n) => n,
        Err(e) => return Err(e),
    };
    let output = match resolve_tensor(file, key(arch, "output").as_str(), "output.weight") {
        Ok(n) => n,
        Err(e) => return Err(e),
    };
    let output_norm = match resolve_tensor(
        file,
        key(arch, "output_norm").as_str(),
        "output_norm.weight",
    ) {
        Ok(n) => n,
        Err(e) => return Err(e),
    };
    Ok(TopNames { token_embd, output, output_norm })
}

proof fn lemma_layers_fail(tensors: Seq<TensorView>, arch: Seq<char>, i: nat, n: nat)
    requires
        i < n,
        all_layers(tensors, arch, i + 1) is Err,
    ensures
        all_layers(tensors, arch, n) == all_layers(tensors, arch, i + 1),
    decreases n - i,
{
    if n > i + 1 {
        lemma_layers_fail(tensors, arch, i, (n - 1) as nat);
    }
}

impl LlamaModel {
    /// The model that a file describes. It fails where a size or a tensor that must be there is
    /// not.
    pub fn new(file: &GgufFile) -> (r: GgufResult<LlamaModel>)
        ensures
            match model_of(file@) {
                Ok(m) => r is Ok && r->Ok_0@ == m,
                Err(e) => r is Err && r->Err_0@ == e,
            },
    {
        let hp = match parse(file) {
            Ok(h) => h,
            Err(e) => return Err(e),
        };
        let prefix = match Prefix::from_arch(hp.arch.as_str()) {
            Ok(p) => p,
            Err(e) => return Err(e),
        };
        let top_names = match read_top(file, hp.arch.as_str()) {
            Ok(t) => t,
            Err(e) => return Err(e),
        };
        let ghost tensors = file@.tensors;
        let mut layer_names: Vec<LayerNames> = Vec::new();
        let mut l: u32 = 0;
        assert(layers_view(layer_names@) =~= Seq::<LayerNamesView>::empty());
        while l < hp.n_layers
            invariant
                l <= hp.n_layers,
                tensors == file@.tensors,
                hparams_of(file@) == Ok::<HParamsView, ErrorView>(hp@),
                prefix_of(hp.arch@) == Some(prefix),
                top_names_of(tensors, hp.arch@) == Ok::<TopNamesView, ErrorView>(top_names@),
                all_layers(tensors, hp.arch@, l as nat) == Ok::<Seq<LayerNamesView>, ErrorView>(
                    layers_view(layer_names@),
                ),
            decreases hp.n_layers - l,
        {
            let ghost before = layers_view(layer_names@);
            match read_layer(file, hp.arch.as_str(), l as usize) {
                Ok(names) => {
                    layer_names.push(names);
                    assert(layers_view(layer_names@) =~= before.push(names@));
                },
                Err(e) => {
                    proof {
                        lemma_layers_fail(tensors, hp.arch@, l as nat, hp.n_layers as nat);
                    }
                    return Err(e);
                },
            }
            l += 1;
        }
        Ok(LlamaModel { hp, prefix, top_names, layer_names })
    }

    /// The sizes of the model.
    pub fn hparams(&self) -> (r: &HParams)
        ensures
            *r == self.hp,
    {
        &self.hp
    }

    /// The family of the model's architecture.
    pub fn prefix(&self) -> (r: Prefix)
        ensures
            r == self@.prefix,
    {
        self.prefix
    }
}

/// Whether every tensor that a layer must have is in the file.
pub open spec fn layer_is_there(tensors: Seq<TensorView>, l: LayerNamesView) -> bool {
    &&& first_tensor(tensors, l.wq) is Some
    &&& first_tensor(tensors, l.wk) is Some
    &&& first_tensor(tensors, l.wv) is Some
    &&& first_tensor(tensors, l.wo) is Some
    &&& first_tensor(tensors, l.w_ffn_up) is Some
    &&& first_tensor(tensors, l.w_ffn_gate) is Some
    &&& first_tensor(tensors, l.w_ffn_down) is Some
    &&& first_tensor(tensors, l.norm_attn) is Some
    &&& first_tensor(tensors, l.norm_ffn) is Some
    &&& l.b_q is Some ==> first_tensor(tensors, l.b_q->Some_0) is Some
    &&& l.b_k is Some ==> first_tensor(tensors, l.b_k->Some_0) is Some
    &&& l.b_v is Some ==> first_tensor(tensors, l.b_v->Some_0) is Some
}

proof fn lemma_layers_are_there(tensors: Seq<TensorView>, arch: Seq<char>, n: nat)
    requires
        all_layers(tensors, arch, n) is Ok,
    ensures
        all_layers(tensors, arch, n)->Ok_0.len() == n,
        forall|i: int|
            0 <= i < n ==> layer_is_there(tensors, #[trigger] all_layers(tensors, arch, n)->Ok_0[i]),
    decreases n,
{
    if n > 0 {
        lemma_layers_are_there(tensors, arch, (n - 1) as nat);
    }
}

/// Every tensor that a model names is in its file, and there are names for each of its layers.
pub proof fn named_tensors_are_there(f: FileView)
    requires
        model_of(f) is Ok,
    ensures
        first_tensor(f.tensors, model_of(f)->Ok_0.top_names.token_embd) is Some,
        first_tensor(f.tensors, model_of(f)->Ok_0.top_names.output) is Some,
        first_tensor(f.tensors, model_of(f)->Ok_0.top_names.output_norm) is Some,
        model_of(f)->Ok_0.layer_names.len() == model_of(f)->Ok_0.hp.n_layers,
        forall|i: int|
            0 <= i < model_of(f)->Ok_0.layer_names.len() ==> layer_is_there(
                f.tensors,
                #[trigger] model_of(f)->Ok_0.layer_names[i],
            ),
{
    let hp = hparams_of(f)->Ok_0;
    lemma_layers_are_there(f.tensors, hp.arch, hp.n_layers as nat);
}

} // verus!
