//! What a model computes, step by step: which vectors meet which weights, and in which order.
use vstd::prelude::*;
use vstd::string::*;
use crate::file::{first_tensor, FileView};
use crate::infer::model::hparams::{head_width, HParams, HParamsView};
use crate::infer::model::llama::{
    layer_is_there, model_of, name_view, named_tensors_are_there, LayerNames, LayerNamesView,
    LlamaModel, ModelView,
};
use crate::tensor::TensorView;
use crate::text::owned;

verus! {

/// The vectors that there are of each token.
#[derive(Debug, Clone, Copy, PartialEq, Eq, Structural)]
pub enum Slot {
    /// The hidden state.
    Hidden,
    /// The hidden state after it was normalised.
    Normed,
    /// What the attention looks for.
    Query,
    /// What the attention is found by.
    Key,
    /// What the attention finds.
    Value,
    /// What all heads found.
    Heads,
    /// The widened state.
    Up,
    /// What gates the widened state.
    Gate,
    /// What is added to the hidden state.
    Delta,
}

/// One step of running a model on tokens. Unless it says otherwise it is done for each token.
#[derive(Debug)]
pub enum Step {
    /// The hidden state is the token's row of this matrix.
    Embed { weight: String },
    /// The hidden state is normalised with these factors.
    Norm { weight: String },
    /// The vector `to` is the product of the matrix with the vector `from`, and the bias is added
    /// where there is one.
    Project {
        weight: String,
        bias: Option<String>,
        from: Slot,
        to: Slot,
        in_dim: u64,
        out_dim: u64,
    },
    /// Each of the heads in a vector is turned by the token's position.
    Rotate { slot: Slot, heads: u32 },
    /// Keys and values go to the cache of a layer.
    Remember { layer: usize },
    /// Each head looks at the tokens in the cache of a layer that it sees.
    Attend { layer: usize, heads: u32, kv_heads: u32 },
    /// The activation of the gating vector multiplies the widened state.
    Combine,
    /// The vector that is to be added must hold no NaN.
    RequireNumbers { layer: usize, stage: &'static str },
    /// It is added to the hidden state.
    Accumulate,
    /// The product of the matrix with the normalised state of the last token is the answer.
    Logits { weight: String, vocab: u32 },
}

/// A [`Step`] with its names as sequences of characters.
pub enum StepView {
    Embed { weight: Seq<char> },
    Norm { weight: Seq<char> },
    Project {
        weight: Seq<char>,
        bias: Option<Seq<char>>,
        from: Slot,
        to: Slot,
        in_dim: u64,
        out_dim: u64,
    },
    Rotate { slot: Slot, heads: u32 },
    Remember { layer: nat },
    Attend { layer: nat, heads: u32, kv_heads: u32 },
    Combine,
    RequireNumbers { layer: nat, stage: Seq<char> },
    Accumulate,
    Logits { weight: Seq<char>, vocab: u32 },
}

impl View for Step {
    type V = StepView;

    open spec fn view(&self) -> StepView {
        match *self {
            Step::Embed { weight } => StepView::Embed { weight: weight@ },
            Step::Norm { weight } => StepView::Norm { weight: weight@ },
            Step::Project { weight, bias, from, to, in_dim, out_dim } => StepView::Project {
                weight: weight@,
                bias: name_view(bias),
                from,
                to,
                in_dim,
                out_dim,
            },
            Step::Rotate { slot, heads } => StepView::Rotate { slot, heads },
            Step::Remember { layer } => StepView::Remember { layer: layer as nat },
            Step::Attend { layer, heads, kv_heads } => StepView::Attend {
                layer: layer as nat,
                heads,
                kv_heads,
            },
            Step::Combine => StepView::Combine,
            Step::RequireNumbers { layer, stage } => StepView::RequireNumbers { layer: layer as nat, stage: stage@ },
            Step::Accumulate => StepView::Accumulate,
            Step::Logits { weight, vocab } => StepView::Logits { weight: weight@, vocab },
        }
    }
}

/// The views of steps in a row.
pub open spec fn steps_view(s: Seq<Step>) -> Seq<StepView> {
    Seq::new(s.len(), |i: int| s[i]@)
}

// ---------------------------------------------------------------------------------------------
// The plan
// ---------------------------------------------------------------------------------------------

/// The width of `n` heads together.
pub open spec fn heads_width(h: HParamsView, n: u32) -> u64 {
    (n as nat * head_width(h) as nat) as u64
}

/// The product of a layer's matrix with a vector.
pub open spec fn product(
    weight: Seq<char>,
    bias: Option<Seq<char>>,
    from: Slot,
    to: Slot,
    in_dim: u64,
    out_dim: u64,
) -> StepView {
    StepView::Project { weight, bias, from, to, in_dim, out_dim }
}

/// The attention of layer `l`: the normalised state is looked up among the tokens so far, and what
/// is found is added to the state.
pub open spec fn attention_plan(h: HParamsView, n: LayerNamesView, l: nat) -> Seq<StepView> {
    let d = h.embed_dim as u64;
    let q = heads_width(h, h.n_heads);
    let kv = heads_width(h, h.n_kv_heads);
    seq![
        StepView::Norm { weight: n.norm_attn },
        product(n.wq, n.b_q, Slot::Normed, Slot::Query, d, q),
        product(n.wk, n.b_k, Slot::Normed, Slot::Key, d, kv),
        product(n.wv, n.b_v, Slot::Normed, Slot::Value, d, kv),
        StepView::Rotate { slot: Slot::Query, heads: h.n_heads },
        StepView::Rotate { slot: Slot::Key, heads: h.n_kv_heads },
        StepView::Remember { layer: l },
        StepView::Attend { layer: l, heads: h.n_heads, kv_heads: h.n_kv_heads },
        product(n.wo, None, Slot::Heads, Slot::Delta, q, d),
        StepView::RequireNumbers { layer: l, stage: "attention"@ },
        StepView::Accumulate,
    ]
}

/// The feed-forward part of layer `l`: the normalised state is widened, gated and narrowed again,
/// and the result is added to the state.
pub open spec fn feed_forward_plan(h: HParamsView, n: LayerNamesView, l: nat) -> Seq<StepView> {
    let d = h.embed_dim as u64;
    let f = h.ffn_dim as u64;
    seq![
        StepView::Norm { weight: n.norm_ffn },
        product(n.w_ffn_up, None, Slot::Normed, Slot::Up, d, f),
        product(n.w_ffn_gate, None, Slot::Normed, Slot::Gate, d, f),
        StepView::Combine,
        product(n.w_ffn_down, None, Slot::Gate, Slot::Delta, f, d),
        StepView::RequireNumbers { layer: l, stage: "ffn"@ },
        StepView::Accumulate,
    ]
}

/// The first `n` layers, one after the other.
pub open spec fn layers_plan(m: ModelView, n: nat) -> Seq<StepView>
    decreases n,
{
    if n == 0 {
        Seq::empty()
    } else {
        let names = m.layer_names[n - 1];
        let l = (n - 1) as nat;
        layers_plan(m, l) + attention_plan(m.hp, names, l) + feed_forward_plan(m.hp, names, l)
    }
}

/// The whole model: the tokens' rows, the layers, and what is said of the token after the last.
pub open spec fn plan_of(m: ModelView) -> Seq<StepView> {
    seq![StepView::Embed { weight: m.top_names.token_embd }] + layers_plan(m, m.layer_names.len())
        + seq![
        StepView::Norm { weight: m.top_names.output_norm },
        StepView::Logits { weight: m.top_names.output, vocab: m.hp.vocab_size },
    ]
}

fn push_step(out: &mut Vec<Step>, s: Step)
    ensures
        steps_view(final(out)@) == steps_view(old(out)@).push(s@),
{
    out.push(s);
    assert(steps_view(out@) =~= steps_view(old(out)@).push(s@));
}

fn copied_name(n: &Option<String>) -> (r: Option<String>)
    ensures
        name_view(r) == name_view(*n),
{
    match n {
        Some(s) => Some(owned(s.as_str())),
        None => None,
    }
}

fn projection(
    weight: &String,
    bias: Option<String>,
    from: Slot,
    to: Slot,
    in_dim: u64,
    out_dim: u64,
) -> (r: Step)
    ensures
        r@ == product(weight@, name_view(bias), from, to, in_dim, out_dim),
{
    Step::Project { weight: owned(weight.as_str()), bias, from, to, in_dim, out_dim }
}

fn width_of_heads(h: &HParams, n: u32) -> (r: u64)
    ensures
        r == heads_width(h@, n),
{
    let w: u32 = h.head_dim();
    assert(n as nat * w as nat <= 0xffff_ffff * 0xffff_ffff) by (nonlinear_arith)
        requires
            n <= 0xffff_ffff,
            w <= 0xffff_ffff,
    ;
    n as u64 * w as u64
}

fn push_attention(out: &mut Vec<Step>, h: &HParams, n: &LayerNames, l: usize)
    ensures
        steps_view(final(out)@) == steps_view(old(out)@) + attention_plan(h@, n@, l as nat),
{
    let d: u64 = h.embed_dim as u64;
    let q: u64 = width_of_heads(h, h.n_heads);
    let kv: u64 = width_of_heads(h, h.n_kv_heads);
    let b_q = copied_name(&n.b_q);
    let b_k = copied_name(&n.b_k);
    let b_v = copied_name(&n.b_v);
    push_step(out, Step::Norm { weight: owned(n.norm_attn.as_str()) });
    push_step(out, projection(&n.wq, b_q, Slot::Normed, Slot::Query, d, q));
    push_step(out, projection(&n.wk, b_k, Slot::Normed, Slot::Key, d, kv));
    push_step(out, projection(&n.wv, b_v, Slot::Normed, Slot::Value, d, kv));
    push_step(out, Step::Rotate { slot: Slot::Query, heads: h.n_heads });
    push_step(out, Step::Rotate { slot: Slot::Key, heads: h.n_kv_heads });
    push_step(out, Step::Remember { layer: l });
    push_step(out, Step::Attend { layer: l, heads: h.n_heads, kv_heads: h.n_kv_heads });
    push_step(out, projection(&n.wo, None, Slot::Heads, Slot::Delta, q, d));
    push_step(out, Step::RequireNumbers { layer: l, stage: "attention" });
    push_step(out, Step::Accumulate);
    assert(steps_view(out@) =~= steps_view(old(out)@) + attention_plan(h@, n@, l as nat));
}

fn push_feed_forward(out: &mut Vec<Step>, h: &HParams, n: &LayerNames, l: usize)
    ensures
        steps_view(final(out)@) == steps_view(old(out)@) + feed_forward_plan(h@, n@, l as nat),
{
    let d: u64 = h.embed_dim as u64;
    let f: u64 = h.ffn_dim as u64;
    push_step(out, Step::Norm { weight: owned(n.norm_ffn.as_str()) });
    push_step(out, projection(&n.w_ffn_up, None, Slot::Normed, Slot::Up, d, f));
    push_step(out, projection(&n.w_ffn_gate, None, Slot::Normed, Slot::Gate, d, f));
    push_step(out, Step::Combine);
    push_step(out, projection(&n.w_ffn_down, None, Slot::Gate, Slot::Delta, f, d));
    push_step(out, Step::RequireNumbers { layer: l, stage: "ffn" });
    push_step(out, Step::Accumulate);
    assert(steps_view(out@) =~= steps_view(old(out)@) + feed_forward_plan(h@, n@, l as nat));
}

impl LlamaModel {
    /// What the model computes, step by step.
    pub fn forward_plan(&self) -> (r: Vec<Step>)
        ensures
            steps_view(r@) == plan_of(self@),
    {
        let mut out: Vec<Step> = Vec::new();
        push_step(&mut out, Step::Embed { weight: owned(self.top_names.token_embd.as_str()) });
        let ghost head = steps_view(out@);
        assert(head =~= seq![StepView::Embed { weight: self@.top_names.token_embd }]);
        let mut l: usize = 0;
        while l < self.layer_names.len()
            invariant
                l <= self.layer_names@.len(),
                steps_view(out@) =~= head + layers_plan(self@, l as nat),
            decreases self.layer_names@.len() - l,
        {
            let names = &self.layer_names[l];
            push_attention(&mut out, &self.hp, names, l);
            push_feed_forward(&mut out, &self.hp, names, l);
            assert(self@.layer_names[l as int] == names@);
            l += 1;
        }
        push_step(&mut out, Step::Norm { weight: owned(self.top_names.output_norm.as_str()) });
        push_step(
            &mut out,
            Step::Logits {
                weight: owned(self.top_names.output.as_str()),
                vocab: self.hp.vocab_size,
            },
        );
        assert(steps_view(out@) =~= plan_of(self@));
        out
    }
}

// ---------------------------------------------------------------------------------------------
// Laws
// ---------------------------------------------------------------------------------------------

/// Whether the vectors that a step takes are there, and as wide as it takes them to be.
pub open spec fn step_fits(h: HParamsView, w: Map<Slot, nat>, s: StepView) -> bool {
    match s {
        StepView::Embed { .. } => true,
        StepView::Norm { .. } => w.contains_key(Slot::Hidden),
        StepView::Project { from, in_dim, .. } => w.contains_key(from) && w[from] == in_dim,
        StepView::Rotate { slot, heads } => w.contains_key(slot) && w[slot] == heads_width(
            h,
            heads,
        ),
        StepView::Remember { .. } => {
            &&& w.contains_key(Slot::Key)
            &&& w.contains_key(Slot::Value)
            &&& w[Slot::Key] == heads_width(h, h.n_kv_heads)
            &&& w[Slot::Value] == heads_width(h, h.n_kv_heads)
        },
        StepView::Attend { heads, .. } => w.contains_key(Slot::Query) && w[Slot::Query]
            == heads_width(h, heads),
        StepView::Combine => {
            &&& w.contains_key(Slot::Gate)
            &&& w.contains_key(Slot::Up)
            &&& w[Slot::Gate] == w[Slot::Up]
        },
        StepView::RequireNumbers { .. } => w.contains_key(Slot::Delta),
        StepView::Accumulate => {
            &&& w.contains_key(Slot::Hidden)
            &&& w.contains_key(Slot::Delta)
            &&& w[Slot::Delta] == w[Slot::Hidden]
        },
        StepView::Logits { .. } => w.contains_key(Slot::Normed) && w[Slot::Normed] == h.embed_dim,
    }
}

/// The widths of the vectors after a step.
pub open spec fn widths_after(h: HParamsView, w: Map<Slot, nat>, s: StepView) -> Map<Slot, nat> {
    match s {
        StepView::Embed { .. } => w.insert(Slot::Hidden, h.embed_dim as nat),
        StepView::Norm { .. } => w.insert(Slot::Normed, w[Slot::Hidden]),
        StepView::Project { to, out_dim, .. } => w.insert(to, out_dim as nat),
        StepView::Attend { heads, .. } => w.insert(Slot::Heads, heads_width(h, heads) as nat),
        _ => w,
    }
}

/// The widths of the vectors after steps in a row.
pub open spec fn widths_at_end(h: HParamsView, w: Map<Slot, nat>, steps: Seq<StepView>) -> Map<
    Slot,
    nat,
>
    decreases steps.len(),
{
    if steps.len() == 0 {
        w
    } else {
        widths_after(h, widths_at_end(h, w, steps.drop_last()), steps.last())
    }
}

/// Whether each step in a row finds what it takes.
pub open spec fn steps_fit(h: HParamsView, w: Map<Slot, nat>, steps: Seq<StepView>) -> bool
    decreases steps.len(),
{
    steps.len() > 0 ==> steps_fit(h, w, steps.drop_last()) && step_fits(
        h,
        widths_at_end(h, w, steps.drop_last()),
        steps.last(),
    )
}

proof fn lemma_fit_together(h: HParamsView, w: Map<Slot, nat>, a: Seq<StepView>, b: Seq<StepView>)
    requires
        steps_fit(h, w, a),
        steps_fit(h, widths_at_end(h, w, a), b),
    ensures
        steps_fit(h, w, a + b),
        widths_at_end(h, w, a + b) == widths_at_end(h, widths_at_end(h, w, a), b),
    decreases b.len(),
{
    if b.len() == 0 {
        assert(a + b =~= a);
    } else {
        lemma_fit_together(h, w, a, b.drop_last());
        assert((a + b).drop_last() =~= a + b.drop_last());
        assert((a + b).last() == b.last());
    }
}

proof fn lemma_fit_one_more(h: HParamsView, w: Map<Slot, nat>, a: Seq<StepView>, s: StepView)
    requires
        steps_fit(h, w, a),
        step_fits(h, widths_at_end(h, w, a), s),
    ensures
        steps_fit(h, w, a.push(s)),
        widths_at_end(h, w, a.push(s)) == widths_after(h, widths_at_end(h, w, a), s),
{
    assert(a.push(s).drop_last() =~= a);
    assert(a.push(s).last() == s);
}

/// The first `k` steps fit, and leave the widths that each of them gives.
proof fn lemma_fit_each(h: HParamsView, w: Map<Slot, nat>, steps: Seq<StepView>, k: int)
    requires
        0 <= k < steps.len(),
        steps_fit(h, w, steps.take(k)),
        step_fits(h, widths_at_end(h, w, steps.take(k)), steps[k]),
    ensures
        steps_fit(h, w, steps.take(k + 1)),
        widths_at_end(h, w, steps.take(k + 1)) == widths_after(
            h,
            widths_at_end(h, w, steps.take(k)),
            steps[k],
        ),
{
    lemma_fit_one_more(h, w, steps.take(k), steps[k]);
    assert(steps.take(k).push(steps[k]) =~= steps.take(k + 1));
}

proof fn lemma_attention_fits(h: HParamsView, n: LayerNamesView, l: nat, w: Map<Slot, nat>)
    requires
        w.contains_key(Slot::Hidden),
        w[Slot::Hidden] == h.embed_dim,
    ensures
        steps_fit(h, w, attention_plan(h, n, l)),
        ({
            let end = widths_at_end(h, w, attention_plan(h, n, l));
            end.contains_key(Slot::Hidden) && end[Slot::Hidden] == h.embed_dim
        }),
{
    let p = attention_plan(h, n, l);
    assert(p.take(0) =~= Seq::<StepView>::empty());
    lemma_fit_each(h, w, p, 0);
    lemma_fit_each(h, w, p, 1);
    lemma_fit_each(h, w, p, 2);
    lemma_fit_each(h, w, p, 3);
    lemma_fit_each(h, w, p, 4);
    lemma_fit_each(h, w, p, 5);
    lemma_fit_each(h, w, p, 6);
    lemma_fit_each(h, w, p, 7);
    lemma_fit_each(h, w, p, 8);
    lemma_fit_each(h, w, p, 9);
    lemma_fit_each(h, w, p, 10);
    assert(p.take(11) =~= p);
}

proof fn lemma_feed_forward_fits(h: HParamsView, n: LayerNamesView, l: nat, w: Map<Slot, nat>)
    requires
        w.contains_key(Slot::Hidden),
        w[Slot::Hidden] == h.embed_dim,
    ensures
        steps_fit(h, w, feed_forward_plan(h, n, l)),
        ({
            let end = widths_at_end(h, w, feed_forward_plan(h, n, l));
            end.contains_key(Slot::Hidden) && end[Slot::Hidden] == h.embed_dim
        }),
{
    let p = feed_forward_plan(h, n, l);
    assert(p.take(0) =~= Seq::<StepView>::empty());
    lemma_fit_each(h, w, p, 0);
    lemma_fit_each(h, w, p, 1);
    lemma_fit_each(h, w, p, 2);
    lemma_fit_each(h, w, p, 3);
    lemma_fit_each(h, w, p, 4);
    lemma_fit_each(h, w, p, 5);
    lemma_fit_each(h, w, p, 6);
    assert(p.take(7) =~= p);
}

proof fn lemma_layers_fit(m: ModelView, n: nat, w: Map<Slot, nat>)
    requires
        w.contains_key(Slot::Hidden),
        w[Slot::Hidden] == m.hp.embed_dim,
    ensures
        steps_fit(m.hp, w, layers_plan(m, n)),
        ({
            let end = widths_at_end(m.hp, w, layers_plan(m, n));
            end.contains_key(Slot::Hidden) && end[Slot::Hidden] == m.hp.embed_dim
        }),
    decreases n,
{
    if n > 0 {
        let l = (n - 1) as nat;
        let before = layers_plan(m, l);
        let attention = attention_plan(m.hp, m.layer_names[n - 1], l);
        let feed_forward = feed_forward_plan(m.hp, m.layer_names[n - 1], l);
        lemma_layers_fit(m, l, w);
        lemma_attention_fits(m.hp, m.layer_names[n - 1], l, widths_at_end(m.hp, w, before));
        lemma_fit_together(m.hp, w, before, attention);
        lemma_feed_forward_fits(
            m.hp,
            m.layer_names[n - 1],
            l,
            widths_at_end(m.hp, w, before + attention),
        );
        lemma_fit_together(m.hp, w, before + attention, feed_forward);
    }
}

/// Every step of a model finds the vectors that it takes, as wide as it takes them to be: whatever
/// sizes a model has, its parts fit together.
pub proof fn plan_fits_together(m: ModelView)
    ensures
        steps_fit(m.hp, Map::empty(), plan_of(m)),
{
    let none = Map::<Slot, nat>::empty();
    let head = seq![StepView::Embed { weight: m.top_names.token_embd }];
    let layers = layers_plan(m, m.layer_names.len());
    assert(head.take(0) =~= Seq::<StepView>::empty());
    lemma_fit_each(m.hp, none, head, 0);
    assert(head.take(1) =~= head);
    lemma_layers_fit(m, m.layer_names.len(), widths_at_end(m.hp, none, head));
    lemma_fit_together(m.hp, none, head, layers);
    let norm = StepView::Norm { weight: m.top_names.output_norm };
    let logits = StepView::Logits { weight: m.top_names.output, vocab: m.hp.vocab_size };
    lemma_fit_one_more(m.hp, none, head + layers, norm);
    lemma_fit_one_more(m.hp, none, (head + layers).push(norm), logits);
    assert(plan_of(m) =~= (head + layers).push(norm).push(logits));
}

/// Whether the tensors that a step names are in the file.
pub open spec fn step_is_there(tensors: Seq<TensorView>, s: StepView) -> bool {
    match s {
        StepView::Embed { weight } => first_tensor(tensors, weight) is Some,
        StepView::Norm { weight } => first_tensor(tensors, weight) is Some,
        StepView::Project { weight, bias, .. } => first_tensor(tensors, weight) is Some && (
        bias is Some ==> first_tensor(tensors, bias->Some_0) is Some),
        StepView::Logits { weight, .. } => first_tensor(tensors, weight) is Some,
        _ => true,
    }
}

proof fn lemma_layers_named(tensors: Seq<TensorView>, m: ModelView, n: nat)
    requires
        n <= m.layer_names.len(),
        forall|i: int| 0 <= i < n ==> layer_is_there(tensors, #[trigger] m.layer_names[i]),
    ensures
        forall|i: int|
            0 <= i < layers_plan(m, n).len() ==> step_is_there(
                tensors,
                #[trigger] layers_plan(m, n)[i],
            ),
    decreases n,
{
    if n > 0 {
        let l = (n - 1) as nat;
        let names = m.layer_names[n - 1];
        let before = layers_plan(m, l);
        let attention = attention_plan(m.hp, names, l);
        let feed_forward = feed_forward_plan(m.hp, names, l);
        lemma_layers_named(tensors, m, l);
        assert(layer_is_there(tensors, names));
        assert forall|i: int| 0 <= i < layers_plan(m, n).len() implies step_is_there(
            tensors,
            #[trigger] layers_plan(m, n)[i],
        ) by {
            let a = i - before.len();
            if a < 0 {
                assert(layers_plan(m, n)[i] == before[i]);
            } else if a < attention.len() {
                assert(layers_plan(m, n)[i] == attention[a]);
            } else {
                assert(layers_plan(m, n)[i] == feed_forward[a - attention.len()]);
            }
        }
    }
}

/// Every tensor that a step names is in the model's file.
pub proof fn planned_tensors_are_there(f: FileView, i: int)
    requires
        model_of(f) is Ok,
        0 <= i < plan_of(model_of(f)->Ok_0).len(),
    ensures
        step_is_there(f.tensors, plan_of(model_of(f)->Ok_0)[i]),
{
    let m = model_of(f)->Ok_0;
    named_tensors_are_there(f);
    lemma_layers_named(f.tensors, m, m.layer_names.len());
    let layers = layers_plan(m, m.layer_names.len());
    if 1 <= i <= layers.len() {
        assert(plan_of(m)[i] == layers[i - 1]);
    }
}

} // verus!
