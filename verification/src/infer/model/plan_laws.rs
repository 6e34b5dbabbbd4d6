//! What the steps of a model compute: carried out one after the other on terms instead of numbers,
//! they give the term of a transformer.
use vstd::prelude::*;
use crate::infer::model::hparams::HParamsView;
use crate::infer::model::llama::{LayerNamesView, ModelView};
use crate::infer::model::plan::{
    attention_plan, feed_forward_plan, layers_plan, plan_of, Slot, StepView,
};

verus! {

/// What is computed of the tokens, written down instead of worked out.
pub enum Term {
    /// The token's row of a matrix.
    Row(Seq<char>),
    /// A vector that was normalised with some factors.
    Norm(Seq<char>, Box<Term>),
    /// The product of a matrix, of so many columns and rows, with a vector.
    Product(Seq<char>, int, int, Box<Term>),
    /// The product of a matrix, of so many rows, with a vector: one number for each of its rows.
    Scores(Seq<char>, int, Box<Term>),
    /// The sum of a vector and a bias.
    Biased(Seq<char>, Box<Term>),
    /// The heads of a vector, each turned by the token's position.
    Turned(int, Box<Term>),
    /// What heads find with their queries among the keys and values of all tokens so far.
    Found { heads: int, kv_heads: int, query: Box<Term>, key: Box<Term>, value: Box<Term> },
    /// A vector that is opened by the activation of another.
    Gated { gate: Box<Term>, up: Box<Term> },
    /// The sum of two vectors.
    Sum(Box<Term>, Box<Term>),
    /// Nothing that was computed.
    Nothing,
}

/// Where carrying out steps has got to: the vectors, what each layer remembers of the tokens, which
/// vectors were required to hold no NaN, and the answer.
pub struct Computed {
    pub vectors: Map<Slot, Term>,
    pub remembered: Map<nat, (Term, Term)>,
    pub required: Seq<(nat, Seq<char>, Term)>,
    pub answer: Option<Term>,
}

/// Before the first step.
pub open spec fn nothing_computed() -> Computed {
    Computed {
        vectors: Map::empty(),
        remembered: Map::empty(),
        required: Seq::empty(),
        answer: None,
    }
}

/// A vector, where there is one.
pub open spec fn vector(c: Computed, s: Slot) -> Term {
    if c.vectors.contains_key(s) {
        c.vectors[s]
    } else {
        Term::Nothing
    }
}

/// With another vector in a slot.
pub open spec fn with_vector(c: Computed, s: Slot, t: Term) -> Computed {
    Computed { vectors: c.vectors.insert(s, t), ..c }
}

/// A product, and the sum with a bias where there is one.
pub open spec fn projected(
    weight: Seq<char>,
    bias: Option<Seq<char>>,
    in_dim: int,
    out_dim: int,
    x: Term,
) -> Term {
    let p = Term::Product(weight, in_dim, out_dim, Box::new(x));
    match bias {
        Some(b) => Term::Biased(b, Box::new(p)),
        None => p,
    }
}

/// After one more step.
pub open spec fn carried_out(c: Computed, s: StepView) -> Computed {
    match s {
        StepView::Embed { weight } => with_vector(c, Slot::Hidden, Term::Row(weight)),
        StepView::Norm { weight } => with_vector(
            c,
            Slot::Normed,
            Term::Norm(weight, Box::new(vector(c, Slot::Hidden))),
        ),
        StepView::Project { weight, bias, from, to, in_dim, out_dim } => with_vector(
            c,
            to,
            projected(weight, bias, in_dim as int, out_dim as int, vector(c, from)),
        ),
        StepView::Rotate { slot, heads } => with_vector(
            c,
            slot,
            Term::Turned(heads as int, Box::new(vector(c, slot))),
        ),
        StepView::Remember { layer } => Computed {
            remembered: c.remembered.insert(layer, (vector(c, Slot::Key), vector(c, Slot::Value))),
            ..c
        },
        StepView::Attend { layer, heads, kv_heads } => {
            let (key, value) = if c.remembered.contains_key(layer) {
                c.remembered[layer]
            } else {
                (Term::Nothing, Term::Nothing)
            };
            with_vector(
                c,
                Slot::Heads,
                Term::Found {
                    heads: heads as int,
                    kv_heads: kv_heads as int,
                    query: Box::new(vector(c, Slot::Query)),
                    key: Box::new(key),
                    value: Box::new(value),
                },
            )
        },
        StepView::Combine => with_vector(
            c,
            Slot::Gate,
            Term::Gated {
                gate: Box::new(vector(c, Slot::Gate)),
                up: Box::new(vector(c, Slot::Up)),
            },
        ),
        StepView::RequireNumbers { layer, stage } => Computed {
            required: c.required.push((layer, stage, vector(c, Slot::Delta))),
            ..c
        },
        StepView::Accumulate => with_vector(
            c,
            Slot::Hidden,
            Term::Sum(Box::new(vector(c, Slot::Hidden)), Box::new(vector(c, Slot::Delta))),
        ),
        StepView::Logits { weight, vocab } => Computed {
            answer: Some(
                Term::Scores(weight, vocab as int, Box::new(vector(c, Slot::Normed))),
            ),
            ..c
        },
    }
}

/// After all steps.
pub open spec fn computed(c: Computed, steps: Seq<StepView>) -> Computed
    decreases steps.len(),
{
    if steps.len() == 0 {
        c
    } else {
        carried_out(computed(c, steps.drop_last()), steps.last())
    }
}

// ---------------------------------------------------------------------------------------------
// A transformer
// ---------------------------------------------------------------------------------------------

/// The keys that a layer remembers of a token whose normalised state is `x`: they are turned by the
/// token's position, once.
pub open spec fn keys(h: HParamsView, n: LayerNamesView, x: Term) -> Term {
    let width = h.n_kv_heads * (h.embed_dim / (if h.n_heads == 0 { 1u32 } else { h.n_heads }));
    Term::Turned(
        h.n_kv_heads as int,
        Box::new(projected(n.wk, n.b_k, h.embed_dim as int, width, x)),
    )
}

/// The values that a layer remembers of a token: they are not turned.
pub open spec fn values(h: HParamsView, n: LayerNamesView, x: Term) -> Term {
    let width = h.n_kv_heads * (h.embed_dim / (if h.n_heads == 0 { 1u32 } else { h.n_heads }));
    projected(n.wv, n.b_v, h.embed_dim as int, width, x)
}

/// What the heads of a layer look for: turned by the token's position, once.
pub open spec fn queries(h: HParamsView, n: LayerNamesView, x: Term) -> Term {
    let width = h.n_heads * (h.embed_dim / (if h.n_heads == 0 { 1u32 } else { h.n_heads }));
    Term::Turned(
        h.n_heads as int,
        Box::new(projected(n.wq, n.b_q, h.embed_dim as int, width, x)),
    )
}

/// What the attention of a layer adds to the state: what its heads find, projected.
pub open spec fn attention(h: HParamsView, n: LayerNamesView, state: Term) -> Term {
    let x = Term::Norm(n.norm_attn, Box::new(state));
    let width = h.n_heads * (h.embed_dim / (if h.n_heads == 0 { 1u32 } else { h.n_heads }));
    let found = Term::Found {
        heads: h.n_heads as int,
        kv_heads: h.n_kv_heads as int,
        query: Box::new(queries(h, n, x)),
        key: Box::new(keys(h, n, x)),
        value: Box::new(values(h, n, x)),
    };
    projected(n.wo, None, width, h.embed_dim as int, found)
}

/// What the feed-forward part of a layer adds to the state: the widened state, opened by the
/// activation of its gate and narrowed again.
pub open spec fn feed_forward(h: HParamsView, n: LayerNamesView, state: Term) -> Term {
    let x = Term::Norm(n.norm_ffn, Box::new(state));
    let (d, f) = (h.embed_dim as int, h.ffn_dim as int);
    let gated = Term::Gated {
        gate: Box::new(projected(n.w_ffn_gate, None, d, f, x)),
        up: Box::new(projected(n.w_ffn_up, None, d, f, x)),
    };
    projected(n.w_ffn_down, None, f, d, gated)
}

/// The state after the attention of a layer.
pub open spec fn attended(h: HParamsView, n: LayerNamesView, state: Term) -> Term {
    Term::Sum(Box::new(state), Box::new(attention(h, n, state)))
}

/// The state after a layer: both parts are added to what was there before them.
pub open spec fn layer_of(h: HParamsView, n: LayerNamesView, state: Term) -> Term {
    let a = attended(h, n, state);
    Term::Sum(Box::new(a), Box::new(feed_forward(h, n, a)))
}

/// The state after the first `n` layers: the first gets the token's row.
pub open spec fn state_after(m: ModelView, n: nat) -> Term
    decreases n,
{
    if n == 0 {
        Term::Row(m.top_names.token_embd)
    } else {
        layer_of(m.hp, m.layer_names[n - 1], state_after(m, (n - 1) as nat))
    }
}

/// What the model says of the token after the last.
pub open spec fn transformer(m: ModelView) -> Term {
    let last = state_after(m, m.layer_names.len());
    Term::Scores(
        m.top_names.output,
        m.hp.vocab_size as int,
        Box::new(Term::Norm(m.top_names.output_norm, Box::new(last))),
    )
}

// ---------------------------------------------------------------------------------------------
// Laws
// ---------------------------------------------------------------------------------------------

proof fn lemma_computed_together(c: Computed, a: Seq<StepView>, b: Seq<StepView>)
    ensures
        computed(c, a + b) == computed(computed(c, a), b),
    decreases b.len(),
{
    if b.len() == 0 {
        assert(a + b =~= a);
    } else {
        lemma_computed_together(c, a, b.drop_last());
        assert((a + b).drop_last() =~= a + b.drop_last());
        assert((a + b).last() == b.last());
    }
}

proof fn lemma_next_step(c: Computed, steps: Seq<StepView>, k: int)
    requires
        0 <= k < steps.len(),
    ensures
        computed(c, steps.take(k + 1)) == carried_out(computed(c, steps.take(k)), steps[k]),
{
    assert(steps.take(k + 1).drop_last() =~= steps.take(k));
    assert(steps.take(k + 1).last() == steps[k]);
}

/// The width of heads is what it is for every width of the state.
proof fn lemma_width(h: HParamsView, n: u32)
    ensures
        ({
            let w = h.embed_dim / (if h.n_heads == 0 { 1u32 } else { h.n_heads });
            (n as nat * w as nat) as u64 == n * w
        }),
{
    let w = h.embed_dim / (if h.n_heads == 0 { 1u32 } else { h.n_heads });
    vstd::arithmetic::div_mod::lemma_div_is_ordered_by_denominator(
        h.embed_dim as int,
        1,
        (if h.n_heads == 0 { 1u32 } else { h.n_heads }) as int,
    );
    assert(w <= 0xffff_ffff);
    assert(0 <= n * w <= 0xffff_ffff * 0xffff_ffff) by (nonlinear_arith)
        requires
            0 <= n <= 0xffff_ffff,
            0 <= w <= 0xffff_ffff,
    ;
}

/// The attention of a layer, carried out on any state: the keys that go to the cache are turned once
/// and so are the queries, the values are not; what the heads find is projected and added to the
/// state, after it was required to hold no NaN.
pub proof fn attention_steps_attend(h: HParamsView, n: LayerNamesView, l: nat, c: Computed)
    ensures
        ({
            let state = vector(c, Slot::Hidden);
            let x = Term::Norm(n.norm_attn, Box::new(state));
            let after = computed(c, attention_plan(h, n, l));
            &&& vector(after, Slot::Hidden) == attended(h, n, state)
            &&& after.remembered == c.remembered.insert(l, (keys(h, n, x), values(h, n, x)))
            &&& after.required == c.required.push((l, "attention"@, attention(h, n, state)))
            &&& after.answer == c.answer
        }),
{
    let p = attention_plan(h, n, l);
    lemma_width(h, h.n_heads);
    lemma_width(h, h.n_kv_heads);
    assert(p.take(0) =~= Seq::<StepView>::empty());
    lemma_next_step(c, p, 0);
    lemma_next_step(c, p, 1);
    lemma_next_step(c, p, 2);
    lemma_next_step(c, p, 3);
    lemma_next_step(c, p, 4);
    lemma_next_step(c, p, 5);
    lemma_next_step(c, p, 6);
    lemma_next_step(c, p, 7);
    lemma_next_step(c, p, 8);
    lemma_next_step(c, p, 9);
    lemma_next_step(c, p, 10);
    assert(p.take(11) =~= p);
}

/// The feed-forward part of a layer, carried out on any state.
pub proof fn feed_forward_steps_widen_and_narrow(
    h: HParamsView,
    n: LayerNamesView,
    l: nat,
    c: Computed,
)
    ensures
        ({
            let state = vector(c, Slot::Hidden);
            let after = computed(c, feed_forward_plan(h, n, l));
            &&& vector(after, Slot::Hidden) == Term::Sum(
                Box::new(state),
                Box::new(feed_forward(h, n, state)),
            )
            &&& after.remembered == c.remembered
            &&& after.required == c.required.push((l, "ffn"@, feed_forward(h, n, state)))
            &&& after.answer == c.answer
        }),
{
    let p = feed_forward_plan(h, n, l);
    assert(p.take(0) =~= Seq::<StepView>::empty());
    lemma_next_step(c, p, 0);
    lemma_next_step(c, p, 1);
    lemma_next_step(c, p, 2);
    lemma_next_step(c, p, 3);
    lemma_next_step(c, p, 4);
    lemma_next_step(c, p, 5);
    lemma_next_step(c, p, 6);
    assert(p.take(7) =~= p);
}

/// What layer `l` has remembered and required.
pub open spec fn layer_done(m: ModelView, l: int, c: Computed) -> bool {
    let names = m.layer_names[l];
    let state = state_after(m, l as nat);
    let x = Term::Norm(names.norm_attn, Box::new(state));
    &&& c.remembered.contains_key(l as nat)
    &&& c.remembered[l as nat] == (keys(m.hp, names, x), values(m.hp, names, x))
    &&& c.required.len() > 2 * l + 1
    &&& c.required[2 * l] == (l as nat, "attention"@, attention(m.hp, names, state))
    &&& c.required[2 * l + 1] == (
        l as nat,
        "ffn"@,
        feed_forward(m.hp, names, attended(m.hp, names, state)),
    )
}

proof fn lemma_layers_done(m: ModelView, n: nat, l: int, c: Computed)
    requires
        vector(c, Slot::Hidden) == state_after(m, 0),
        c.answer is None,
        c.required.len() == 0,
    ensures
        ({
            let after = computed(c, layers_plan(m, n));
            &&& vector(after, Slot::Hidden) == state_after(m, n)
            &&& after.answer is None
            &&& after.required.len() == 2 * n
            &&& 0 <= l < n ==> layer_done(m, l, after)
        }),
    decreases n,
{
    if n > 0 {
        let i = (n - 1) as nat;
        let names = m.layer_names[n - 1];
        let before = layers_plan(m, i);
        let first = attention_plan(m.hp, names, i);
        let second = feed_forward_plan(m.hp, names, i);
        lemma_layers_done(m, i, l, c);
        let c0 = computed(c, before);
        let c1 = computed(c0, first);
        lemma_computed_together(c, before, first);
        lemma_computed_together(c, before + first, second);
        attention_steps_attend(m.hp, names, i, c0);
        feed_forward_steps_widen_and_narrow(m.hp, names, i, c1);
    }
}

/// The steps of a model are a transformer: the token's row goes through all layers, one after the
/// other, and the last state is normalised and projected to the vocabulary. Every layer remembers
/// keys that were turned by the token's position, once, and values that were not; and what each part
/// adds is required to hold no NaN.
pub proof fn steps_are_a_transformer(m: ModelView, l: int)
    ensures
        ({
            let end = computed(nothing_computed(), plan_of(m));
            &&& end.answer == Some(transformer(m))
            &&& end.required.len() == 2 * m.layer_names.len()
            &&& 0 <= l < m.layer_names.len() ==> layer_done(m, l, end)
        }),
{
    let none = nothing_computed();
    let embed = StepView::Embed { weight: m.top_names.token_embd };
    let norm = StepView::Norm { weight: m.top_names.output_norm };
    let logits = StepView::Logits { weight: m.top_names.output, vocab: m.hp.vocab_size };
    let head = seq![embed];
    let layers = layers_plan(m, m.layer_names.len());
    assert(head.drop_last() =~= Seq::<StepView>::empty());
    assert(computed(none, head.drop_last()) == none);
    let c0 = computed(none, head);
    assert(head.last() == embed);
    lemma_layers_done(m, m.layer_names.len(), l, c0);
    lemma_computed_together(none, head, layers);
    let all = plan_of(m);
    assert(all.drop_last() =~= (head + layers).push(norm));
    assert((head + layers).push(norm).drop_last() =~= head + layers);
    assert(all.last() == logits && all.drop_last().last() == norm);
    let c1 = computed(none, head + layers);
    let c2 = computed(none, (head + layers).push(norm));
    assert((head + layers).push(norm).last() == norm);
    assert(c2 == carried_out(c1, norm));
    assert(computed(none, all) == carried_out(c2, logits));
}

/// In the attention of every layer the keys are turned exactly once, all heads of them, between the
/// product that makes them and the cache; so are the queries, between their product and the search;
/// and nothing else is turned.
pub proof fn keys_and_queries_are_turned_once(h: HParamsView, n: LayerNamesView, l: nat) -> (r: (
    int,
    int,
    int,
    int,
    int,
    int,
))
    ensures
        ({
            let p = attention_plan(h, n, l);
            let (made, turned, kept, asked, aimed, sought) = r;
            &&& 0 <= made < turned < kept < p.len() && 0 <= asked < aimed < sought < p.len()
            &&& kept < sought
            &&& p[made] matches StepView::Project { to, from, weight, .. } && to == Slot::Key && from
                == Slot::Normed && weight == n.wk
            &&& p[turned] == (StepView::Rotate { slot: Slot::Key, heads: h.n_kv_heads })
            &&& p[kept] == (StepView::Remember { layer: l })
            &&& p[asked] matches StepView::Project { to, from, weight, .. } && to == Slot::Query
                && from == Slot::Normed && weight == n.wq
            &&& p[aimed] == (StepView::Rotate { slot: Slot::Query, heads: h.n_heads })
            &&& p[sought] == (StepView::Attend {
                layer: l,
                heads: h.n_heads,
                kv_heads: h.n_kv_heads,
            })
            &&& forall|i: int| 0 <= i < p.len() && p[i] is Rotate ==> i == turned || i == aimed
        }),
{
    (2, 5, 6, 1, 4, 7)
}

} // verus!
