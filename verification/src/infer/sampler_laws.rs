//! What the settings of a sampler are for: which tokens can be drawn and which one is.
//!
//! Single precision numbers are compared here by their bit patterns: from 0 to the pattern of
//! infinity they are ordered as the numbers are.
use vstd::prelude::*;
use vstd::arithmetic::power2::*;
use crate::float::{f32_at_least, f32_finite, f32_rank, f32_rank_is_value_order, f32_value};
use crate::infer::sampler::{
    are_candidates, asks_after_share, asks_after_weighing, asks_for_draw, comes_before,
    count_until, default_config, first_exhausted, is_largest_of, is_last_largest,
    is_likeliest, is_penalized, is_random, likely_enough, recorded, Ask, Choice, ChoiceView,
    Sampler, SamplerConfig, COLD, ONE,
};

verus! {

/// The pattern of infinity: every positive number has a pattern up to it, and a larger number a
/// larger pattern.
pub const INFINITE: u32 = 0x7f80_0000;

/// Whether a pattern is that of a number above zero.
pub open spec fn is_positive(b: u32) -> bool {
    0 < b <= INFINITE
}

/// One is one, and the least temperature that counts is the single precision number nearest to one
/// millionth: `8796093 / 2^43`, which is off by less than half a unit.
pub proof fn limits_are_their_numbers()
    ensures
        f32_finite(ONE) && f32_value(ONE) == pow2(149),
        f32_finite(COLD) && f32_value(COLD) == 8796093 * pow2(106),
        2 * (0x800_0000_0000 - 8796093 * 1_000_000) < 1_000_000,
        0 < 0x800_0000_0000 - 8796093 * 1_000_000,
        pow2(149) == 0x800_0000_0000 * pow2(106),
{
    lemma2_to64();
    lemma2_to64_rest();
    lemma_pow2_adds(23, 126);
    lemma_pow2_adds(43, 106);
    assert(pow2(43) == 0x800_0000_0000);
    assert(crate::float::f32_exponent(ONE) == 127 && crate::float::f32_fraction(ONE) == 0);
    assert(crate::float::f32_exponent(COLD) == 107);
    assert(crate::float::f32_fraction(COLD) == 8796093 - 0x80_0000);
}

/// The choice is left to chance where the temperature is above one millionth; at zero, and up to
/// there, it is not.
pub proof fn temperature_decides_on_chance(c: SamplerConfig)
    ensures
        is_random(c) <==> 0x3586_37bd < c.temperature <= INFINITE,
        c.temperature == 0 ==> !is_random(c),
{
}

/// Where nothing else is asked for, tokens are drawn from the 40 likeliest and 0.95 of the
/// probability, with a penalty of 1.1 and without a seed.
pub proof fn default_settings_are_documented()
    ensures
        ({
            let c = default_config();
            &&& f32_value(c.temperature) == pow2(149)
            &&& c.top_k == 40 && c.min_p == 0 && c.seed == 0
            &&& 2 * (100 * f32_value(c.top_p) - 95 * pow2(149)) <= 100 * pow2(125)
            &&& 2 * (95 * pow2(149) - 100 * f32_value(c.top_p)) <= 100 * pow2(125)
            &&& 2 * (10 * f32_value(c.repeat_penalty) - 11 * pow2(149)) <= 10 * pow2(126)
            &&& 2 * (11 * pow2(149) - 10 * f32_value(c.repeat_penalty)) <= 10 * pow2(126)
            &&& is_random(c)
        }),
{
    limits_are_their_numbers();
    let c = default_config();
    lemma2_to64();
    lemma2_to64_rest();
    lemma_pow2_adds(24, 125);
    lemma_pow2_adds(23, 126);
    lemma_pow2_pos(125);
    lemma_pow2_pos(126);
    assert(crate::float::f32_exponent(c.top_p) == 126);
    assert(crate::float::f32_fraction(c.top_p) == 0x73_3333);
    assert(crate::float::f32_exponent(c.repeat_penalty) == 127);
    assert(crate::float::f32_fraction(c.repeat_penalty) == 0x0c_cccd);
    assert(f32_value(c.top_p) == 0xf3_3333 * pow2(125));
    assert(f32_value(c.repeat_penalty) == 0x8c_cccd * pow2(126));
}

// ---------------------------------------------------------------------------------------------
// The least probability
// ---------------------------------------------------------------------------------------------

/// Wherever a least probability is set, it is asked for before anything is drawn, whatever else is
/// set: after a share was cut off, and where none is.
pub proof fn least_probability_is_always_asked_for(c: ChoiceView, ask: Ask)
    requires
        is_positive(c.config.min_p),
    ensures
        asks_after_share(c, ask) ==> ask is Bound,
        asks_after_weighing(c, ask) ==> ask is Bound || ask is Sums,
        asks_after_weighing(c, ask) && c.config.top_p >= 0x3f80_0000 && c.config.top_p <= INFINITE
            ==> ask is Bound,
        !(asks_after_share(c, Ask::Probabilities)),
{
}

/// Where none is set, nothing is asked but the draw.
pub proof fn no_least_probability_is_asked_for(c: ChoiceView, ask: Ask)
    requires
        c.config.min_p == 0 || c.config.min_p > INFINITE,
        c.candidates.len() > 0,
        asks_after_share(c, ask),
    ensures
        ask is Draw,
        ask->Draw_0@ == c.candidates,
{
}

/// The bound is asked for the largest probability of the candidates: one of them has it, and none
/// has a larger one.
pub proof fn bound_is_asked_of_the_largest(c: ChoiceView, ask: Ask, i: int)
    requires
        is_positive(c.config.min_p),
        asks_after_share(c, ask),
        0 <= i < c.candidates.len(),
        forall|k: int|
            0 <= k < c.candidates.len() ==> is_positive(#[trigger] c.probs[c.candidates[k] as int]),
    ensures
        c.probs[c.candidates[i] as int] <= ask->Bound_0,
        exists|k: int|
            0 <= k < c.candidates.len() && #[trigger] c.probs[c.candidates[k] as int]
                == ask->Bound_0,
{
    let r = ask->Bound_0;
    assert(is_largest_of(c.candidates, c.probs, r));
    assert(is_positive(c.probs[c.candidates[i] as int]));
    assert(f32_rank(c.probs[c.candidates[i] as int]) <= f32_rank(r));
    let k = choose|k: int| 0 <= k < c.candidates.len() && c.probs[c.candidates[k] as int] == r;
    assert(c.probs[c.candidates[k] as int] == r);
}

/// A candidate is kept exactly where its probability is not below the bound, and those that are kept
/// keep their order.
pub proof fn bound_keeps_the_likely(a: Seq<usize>, probs: Seq<u32>, bound: u32, x: usize)
    requires
        x < probs.len(),
        bound <= INFINITE,
        probs[x as int] <= INFINITE,
    ensures
        likely_enough(a.push(x), probs, bound) == if probs[x as int] >= bound {
            likely_enough(a, probs, bound).push(x)
        } else {
            likely_enough(a, probs, bound)
        },
        likely_enough(Seq::empty(), probs, bound).len() == 0,
{
    reveal(Seq::filter);
    assert(a.push(x).drop_last() =~= a);
    assert(a.push(x).last() == x);
}

/// Nothing that is below the bound can be drawn.
pub proof fn nothing_below_the_bound_is_drawn(
    a: Seq<usize>,
    probs: Seq<u32>,
    bound: u32,
    c: ChoiceView,
    ask: Ask,
    i: int,
)
    requires
        bound <= INFINITE,
        c.candidates == likely_enough(a, probs, bound),
        asks_for_draw(c, ask),
        ask is Draw,
        0 <= i < ask->Draw_0@.len(),
    ensures
        probs[ask->Draw_0@[i] as int] >= bound || probs[ask->Draw_0@[i] as int] == 0x8000_0000,
        a.contains(ask->Draw_0@[i]),
{
    let keep = |x: usize| f32_at_least(probs[x as int], bound);
    let x = ask->Draw_0@[i];
    a.lemma_filter_pred(keep, i);
    assert(a.filter(keep).contains(x));
    a.lemma_filter_contains_rev(keep, x);
}

// ---------------------------------------------------------------------------------------------
// The share
// ---------------------------------------------------------------------------------------------

/// A share below one is always asked for first; a share of one, or more, never.
pub proof fn share_is_asked_for_first(c: ChoiceView, ask: Ask)
    requires
        asks_after_weighing(c, ask),
    ensures
        c.config.top_p < 0x3f80_0000 ==> ask is Sums && ask->Sums_0@ == c.candidates,
        0x3f80_0000 <= c.config.top_p <= INFINITE ==> !(ask is Sums),
        0x8000_0000 <= c.config.top_p <= 0xff80_0000 ==> ask is Sums,
{
}

/// As few candidates as reach the share are kept: their sum reaches it, that of fewer does not; and
/// all are kept where the sum of all does not.
pub proof fn share_keeps_the_fewest(sums: Seq<u32>, threshold: u32, i: int)
    requires
        threshold <= INFINITE,
        forall|k: int| 0 <= k < sums.len() ==> #[trigger] sums[k] <= INFINITE,
    ensures
        ({
            let n = count_until(sums, threshold);
            &&& n <= sums.len()
            &&& sums.len() > 0 ==> n > 0
            &&& 0 <= i < n - 1 ==> sums[i] < threshold
            &&& n < sums.len() ==> sums[n - 1] >= threshold
            &&& (exists|k: int| 0 <= k < sums.len() && #[trigger] sums[k] >= threshold)
                ==> sums[n - 1] >= threshold
        }),
    decreases sums.len(),
{
    if sums.len() > 0 {
        assert(sums[0] <= INFINITE);
        if !(sums[0] >= threshold) {
            let rest = sums.drop_first();
            assert forall|k: int| 0 <= k < rest.len() implies #[trigger] rest[k] <= INFINITE by {
                assert(sums[k + 1] <= INFINITE);
            }
            share_keeps_the_fewest(rest, threshold, i - 1);
            let n = count_until(sums, threshold);
            let m = count_until(rest, threshold);
            assert(n == m + 1);
            if m > 0 {
                assert(rest[m - 1] == sums[n - 1]);
            }
            if 0 < i < n - 1 {
                assert(rest[i - 1] == sums[i]);
            }
            if exists|k: int| 0 <= k < sums.len() && #[trigger] sums[k] >= threshold {
                let k = choose|k: int| 0 <= k < sums.len() && #[trigger] sums[k] >= threshold;
                assert(rest[k - 1] == sums[k]);
            }
        }
    }
}

// ---------------------------------------------------------------------------------------------
// The count
// ---------------------------------------------------------------------------------------------

/// Where only some tokens are to take part, exactly that many do, and else all.
pub proof fn count_limits_the_candidates(c: SamplerConfig, probs: Seq<u32>, r: Seq<usize>, m: int)
    requires
        are_candidates(c, probs, r),
        probs.len() <= usize::MAX,
    ensures
        0 < c.top_k < probs.len() ==> r.len() == c.top_k,
        c.top_k == 0 || c.top_k >= probs.len() ==> r.len() == probs.len(),
{
}

/// No token that takes part is less likely than one that does not, and, wherever they are put in
/// order, none is less likely than one behind it.
pub proof fn likelier_tokens_come_first(
    c: SamplerConfig,
    probs: Seq<u32>,
    r: Seq<usize>,
    i: int,
    j: int,
    m: int,
)
    requires
        are_candidates(c, probs, r),
        probs.len() <= usize::MAX,
        forall|k: int| 0 <= k < probs.len() ==> #[trigger] probs[k] <= INFINITE,
        0 <= i < j < r.len(),
        0 <= m < probs.len(),
        c.top_p <= INFINITE,
    ensures
        r[i] < probs.len() && r[j] < probs.len() && r[i] != r[j],
        (0 < c.top_k < probs.len()) || c.top_p < 0x3f80_0000 ==> probs[r[i] as int]
            >= probs[r[j] as int],
        !r.contains(m as usize) ==> probs[r[i] as int] >= probs[m],
{
    if (0 < c.top_k < probs.len()) || c.top_p < 0x3f80_0000 {
        assert(comes_before(probs, r[i] as int, r[j] as int));
        assert(probs[r[i] as int] <= INFINITE && probs[r[j] as int] <= INFINITE);
        if !r.contains(m as usize) {
            assert(comes_before(probs, r[i] as int, m));
            assert(probs[m] <= INFINITE);
        }
    } else {
        lemma_all_places(c, probs, r);
        assert(r[m] == m);
        assert(r.contains(m as usize));
    }
}

proof fn lemma_all_places(c: SamplerConfig, probs: Seq<u32>, r: Seq<usize>)
    requires
        are_candidates(c, probs, r),
        probs.len() <= usize::MAX,
    ensures
        !(0 < c.top_k < probs.len()) && !(c.top_p < 0x3f80_0000) && c.top_p <= INFINITE ==> r.len()
            == probs.len() && forall|k: int| 0 <= k < r.len() ==> #[trigger] r[k] == k,
{
}

// ---------------------------------------------------------------------------------------------
// The draw
// ---------------------------------------------------------------------------------------------

/// The draw falls on the first place at which nothing is left of the drawn number, and on the last
/// where something always is.
pub proof fn draw_falls_where_nothing_is_left(rests: Seq<u32>, i: int)
    requires
        rests.len() > 0,
    ensures
        ({
            let n = first_exhausted(rests);
            &&& 0 <= n < rests.len()
            &&& 0 <= i < n ==> !(rests[i] == 0 || 0x8000_0000 <= rests[i] <= 0xff80_0000)
            &&& n < rests.len() - 1 ==> rests[n] == 0 || 0x8000_0000 <= rests[n] <= 0xff80_0000
        }),
    decreases rests.len(),
{
    if rests.len() > 1 && !f32_at_least(0, rests[0]) {
        let rest = rests.drop_first();
        draw_falls_where_nothing_is_left(rest, i - 1);
        let n = first_exhausted(rests);
        assert(rest[n - 1] == rests[n]);
        if 0 < i < n {
            assert(rest[i - 1] == rests[i]);
        }
    }
}

/// Where no candidate is left, the token with the largest logit is taken without a draw.
pub proof fn without_candidates_the_likeliest_is_taken(c: ChoiceView, ask: Ask, i: int)
    requires
        c.candidates.len() == 0,
        asks_for_draw(c, ask),
        c.scaled.len() <= 0x1_0000_0000,
        0 <= i < c.scaled.len(),
        forall|k: int| 0 <= k < c.scaled.len() ==> f32_finite(#[trigger] c.scaled[k]),
    ensures
        ask is Token,
        ask->Token_0 < c.scaled.len(),
        f32_value(c.scaled[i]) <= f32_value(c.scaled[ask->Token_0 as int]),
{
    likeliest_has_the_largest_logit(c.scaled, ask->Token_0, i);
}

/// The likeliest token is one with the largest logit, and the last of several.
pub proof fn likeliest_has_the_largest_logit(logits: Seq<u32>, id: u32, i: int)
    requires
        logits.len() <= 0x1_0000_0000,
        is_likeliest(logits, id),
        0 <= i < logits.len(),
        forall|k: int| 0 <= k < logits.len() ==> f32_finite(#[trigger] logits[k]),
    ensures
        id < logits.len(),
        f32_value(logits[i]) <= f32_value(logits[id as int]),
        i > id ==> f32_value(logits[i]) < f32_value(logits[id as int]),
{
    let k = choose|k: int| #[trigger] is_last_largest(logits, k) && id == k as u32;
    assert(is_last_largest(logits, k));
    assert(k == id);
    assert(f32_finite(logits[i]) && f32_finite(logits[k]));
    assert(f32_rank(logits[i]) <= f32_rank(logits[k]));
    f32_rank_is_value_order(logits[i], logits[k]);
    f32_rank_is_value_order(logits[k], logits[i]);
}

// ---------------------------------------------------------------------------------------------
// The penalty
// ---------------------------------------------------------------------------------------------

/// Exactly the tokens that were seen are penalised, whichever and how often; and none where the
/// penalty is one.
pub proof fn seen_tokens_are_penalised(a: &Sampler, b: &Sampler, id: u32, other: u32)
    requires
        b.settings() == a.settings(),
        b.counts() == recorded(a.counts(), id),
        other != id,
    ensures
        a.settings().repeat_penalty != 0x3f80_0000 ==> is_penalized(b, id as int),
        is_penalized(b, other as int) == is_penalized(a, other as int),
        a.settings().repeat_penalty == 0x3f80_0000 ==> !is_penalized(b, id as int),
        a.counts() == Map::<u32, u64>::empty() ==> !is_penalized(a, id as int),
{
}

/// Every time a token is seen it is counted once more, and no other is.
pub proof fn seen_tokens_are_counted(seen: Map<u32, u64>, id: u32)
    ensures
        !seen.contains_key(id) ==> recorded(seen, id)[id] == 1,
        seen.contains_key(id) && seen[id] < u64::MAX ==> recorded(seen, id)[id] == seen[id] + 1,
        recorded(seen, id).remove(id) == seen.remove(id),
{
    assert(recorded(seen, id).remove(id) =~= seen.remove(id));
}

/// A penalty divides the logits above nought and multiplies all others, so that it always makes a
/// token less likely.
pub proof fn penalty_divides_above_nought(logit: u32, r: bool)
    requires
        call_ensures(Sampler::divides, (logit,), r),
    ensures
        r <==> 0 < logit <= INFINITE,
        f32_finite(logit) ==> (r <==> f32_value(logit) > 0),
{
    if f32_finite(logit) {
        assert(crate::float::f32_exponent(0) == 0);
        assert(crate::float::f32_fraction(0) == 0);
        assert(f32_value(0) == 0);
        f32_rank_is_value_order(logit, 0);
        f32_rank_is_value_order(0, logit);
        lemma_nought(logit);
    }
}

proof fn lemma_nought(b: u32)
    requires
        f32_finite(b),
    ensures
        b == 0 || b == 0x8000_0000 ==> f32_value(b) == 0,
        f32_rank(b) == 0 <==> b == 0 || b == 0x8000_0000,
        0 < b <= INFINITE <==> f32_rank(b) > 0,
{
    if b == 0 || b == 0x8000_0000 {
        assert(crate::float::f32_exponent(b) == 0);
        assert(crate::float::f32_fraction(b) == 0);
    }
}

/// The probabilities are put in order exactly where a count below their number or a share below one
/// is set.
pub proof fn order_is_needed_for_limits(c: &SamplerConfig, n: usize, r: bool)
    requires
        call_ensures(SamplerConfig::puts_in_order, (c, n), r),
    ensures
        0 < c.top_k < n ==> r,
        c.top_p < 0x3f80_0000 ==> r,
        (c.top_k == 0 || c.top_k >= n) && 0x3f80_0000 <= c.top_p <= INFINITE ==> !r,
{
}

// ---------------------------------------------------------------------------------------------
// The steps of a choice
// ---------------------------------------------------------------------------------------------

/// Without a temperature the largest logit is taken at once, and with one the probabilities are
/// asked for first.
pub proof fn choice_starts_by_the_temperature(s: &Sampler, logits: &[u32], ask: Ask, i: int)
    requires
        call_ensures(Sampler::sample, (s, logits), ask),
        0 <= i < logits@.len() <= 0x1_0000_0000,
        forall|k: int| 0 <= k < logits@.len() ==> f32_finite(#[trigger] logits@[k]),
    ensures
        s.settings().temperature == 0 ==> ask is Token && ask->Token_0 < logits@.len() && f32_value(
            logits@[i],
        ) <= f32_value(logits@[ask->Token_0 as int]),
        0x3f80_0000 <= s.settings().temperature <= INFINITE ==> ask is Probabilities,
{
    temperature_decides_on_chance(s.settings());
    if s.settings().temperature == 0 {
        likeliest_has_the_largest_logit(logits@, ask->Token_0, i);
    }
}

/// Once the probabilities are known a share below one is asked for, without one the least
/// probability that is set, and without either the draw.
pub proof fn weighing_asks_for_what_is_set(
    s: &Sampler,
    scaled: Vec<u32>,
    probs: Vec<u32>,
    r: (Choice, Ask),
)
    requires
        call_ensures(Sampler::weigh, (s, scaled, probs), r),
    ensures
        s.settings().top_p < 0x3f80_0000 ==> r.1 is Sums,
        0x3f80_0000 <= s.settings().top_p <= INFINITE && is_positive(s.settings().min_p)
            ==> r.1 is Bound,
        0x3f80_0000 <= s.settings().top_p <= INFINITE && s.settings().min_p == 0
            && r.0@.candidates.len() > 0 ==> r.1 is Draw,
        r.0@.probs == probs@ && r.0@.scaled == scaled@ && r.0@.config == s.settings(),
{
}

/// The token that is drawn is the candidate at the place on which the draw falls; by chance alone it
/// is that place itself, and the first token where there is no probability.
pub proof fn draw_takes_the_candidate(
    c: &Choice,
    rests: &[u32],
    id: u32,
    total: u32,
    alone: u32,
)
    requires
        call_ensures(Choice::with_rests, (c, rests), id),
        call_ensures(Sampler::random, (total, rests), alone),
        rests@.len() > 0,
        rests@.len() == c@.candidates.len() <= 0x1_0000_0000,
        forall|k: int|
            0 <= k < c@.candidates.len() ==> #[trigger] c@.candidates[k] <= 0xffff_ffff,
    ensures
        exists|k: int| 0 <= k < rests@.len() && #[trigger] c@.candidates[k] == id,
        total == 0 || 0x8000_0000 <= total <= 0xff80_0000 ==> alone == 0,
        is_positive(total) ==> alone < rests@.len() && c@.candidates[alone as int] == id,
{
    draw_falls_where_nothing_is_left(rests@, 0);
    let k = first_exhausted(rests@);
    assert(c@.candidates[k] <= 0xffff_ffff);
    assert(c@.candidates[k] == id);
}

} // verus!
