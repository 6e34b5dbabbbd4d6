//! Choosing the next token.
//!
//! Probabilities are single precision numbers and come in as bit patterns. What is decided here is
//! which of them take part and which one is taken; sums, products and powers are the caller's.
use std::collections::HashMap;
use rand::rngs::StdRng;
use rand::SeedableRng;
use vstd::prelude::*;
use vstd::seq_lib::*;
use vstd::slice::slice_to_vec;
use crate::float::{f32_at_least, f32_ge, f32_is_nan, f32_key, f32_nan, f32_rank};

verus! {

/// `rand::rngs::StdRng`: a random number generator.
#[verifier::external_type_specification]
#[verifier::external_body]
pub struct ExStdRng(rand::rngs::StdRng);

/// The generator that `StdRng::seed_from_u64` makes of a seed.
pub uninterp spec fn seeded_generator(seed: u64) -> StdRng;

/// `StdRng::seed_from_u64` of rand: the generator is fixed by the seed.
#[verifier::external_body]
fn seeded(seed: u64) -> (r: StdRng)
    ensures
        r == seeded_generator(seed),
{
    StdRng::seed_from_u64(seed)
}

/// `StdRng::from_entropy` of rand: a generator that the system's entropy seeds. Nothing is said of
/// it. The call panics where the system has no entropy to give.
#[verifier::external_body]
fn unseeded() -> StdRng {
    StdRng::from_entropy()
}

/// `slice::sort` of std on pairs of integers: the same pairs, in ascending order of the first and,
/// among equal ones, of the second.
#[verifier::external_body]
fn sort_pairs(v: &mut Vec<(i64, usize)>)
    ensures
        final(v)@.to_multiset() == old(v)@.to_multiset(),
        forall|i: int, j: int|
            #![trigger final(v)@[i], final(v)@[j]]
            0 <= i <= j < final(v)@.len() ==> final(v)@[i].0 < final(v)@[j].0 || (final(v)@[i].0
                == final(v)@[j].0 && final(v)@[i].1 <= final(v)@[j].1),
{
    v.sort()
}

/// How tokens are chosen. The four numbers that are not integers are bit patterns of single
/// precision numbers.
#[derive(Debug, Clone, Copy, PartialEq, Eq, Structural)]
pub struct SamplerConfig {
    /// 0 takes the likeliest token; the logits are divided by anything larger.
    pub temperature: u32,
    /// How many of the likeliest tokens take part; 0 for all.
    pub top_k: usize,
    /// The share of the probability that takes part; 1 for all.
    pub top_p: u32,
    /// The least probability, relative to the likeliest token's; 0 for any.
    pub min_p: u32,
    /// By how much tokens that were seen become less likely; 1 for not at all.
    pub repeat_penalty: u32,
    /// The seed of the random choice; 0 for one that the system gives.
    pub seed: u64,
}

/// The settings where nothing else is asked for: temperature 1, the 40 likeliest tokens, 0.95 of
/// the probability, no least probability, a penalty of 1.1 and no seed.
pub open spec fn default_config() -> SamplerConfig {
    SamplerConfig {
        temperature: 0x3f80_0000,
        top_k: 40,
        top_p: 0x3f73_3333,
        min_p: 0,
        repeat_penalty: 0x3f8c_cccd,
        seed: 0,
    }
}

impl Default for SamplerConfig {
    fn default() -> (r: Self)
        ensures
            r == default_config(),
    {
        SamplerConfig {
            temperature: 0x3f80_0000,
            top_k: 40,
            top_p: 0x3f73_3333,
            min_p: 0,
            repeat_penalty: 0x3f8c_cccd,
            seed: 0,
        }
    }
}

/// The number 1.
pub const ONE: u32 = 0x3f80_0000;

/// One millionth: a temperature up to it counts as 0.
pub const COLD: u32 = 0x3586_37bd;

/// Chooses tokens: the settings, the random number generator, and how often each token was seen.
pub struct Sampler {
    config: SamplerConfig,
    rng: StdRng,
    seen: HashMap<u32, u64>,
}

/// One more, as far as 64 bits go.
pub open spec fn one_more(n: u64) -> u64 {
    if n < u64::MAX {
        (n + 1) as u64
    } else {
        n
    }
}

/// The counts with one more of a token.
pub open spec fn recorded(seen: Map<u32, u64>, id: u32) -> Map<u32, u64> {
    seen.insert(
        id,
        if seen.contains_key(id) {
            one_more(seen[id])
        } else {
            1
        },
    )
}

impl Sampler {
    /// The settings.
    pub closed spec fn settings(&self) -> SamplerConfig {
        self.config
    }

    /// The random number generator.
    pub closed spec fn generator(&self) -> StdRng {
        self.rng
    }

    /// How often each token was seen.
    pub closed spec fn counts(&self) -> Map<u32, u64> {
        self.seen@
    }

    /// A sampler that has seen nothing. A seed other than 0 fixes its generator.
    pub fn new(config: SamplerConfig) -> (r: Sampler)
        ensures
            r.settings() == config,
            r.counts() == Map::<u32, u64>::empty(),
            config.seed != 0 ==> r.generator() == seeded_generator(config.seed),
    {
        let rng = if config.seed != 0 {
            seeded(config.seed)
        } else {
            unseeded()
        };
        Sampler { config, rng, seen: HashMap::new() }
    }

    /// The settings.
    pub fn config(&self) -> (r: &SamplerConfig)
        ensures
            *r == self.settings(),
    {
        &self.config
    }

    /// The random number generator, to draw from.
    pub fn rng_mut(&mut self) -> (r: &mut StdRng)
        ensures
            *r == old(self).generator(),
            final(self).generator() == *final(r),
            final(self).settings() == old(self).settings(),
            final(self).counts() == old(self).counts(),
    {
        &mut self.rng
    }

    /// Other settings. A new seed other than 0 starts the generator again from it.
    pub fn set_config(&mut self, config: SamplerConfig)
        ensures
            final(self).settings() == config,
            final(self).counts() == old(self).counts(),
            final(self).generator() == (if config.seed != old(self).settings().seed && config.seed
                != 0 {
                seeded_generator(config.seed)
            } else {
                old(self).generator()
            }),
    {
        if config.seed != self.config.seed && config.seed != 0 {
            self.rng = seeded(config.seed);
        }
        self.config = config;
    }

    /// Forgets the tokens that were seen and starts the generator again, for a new dialogue.
    pub fn reset(&mut self)
        ensures
            final(self).settings() == old(self).settings(),
            final(self).counts() == Map::<u32, u64>::empty(),
            old(self).settings().seed != 0 ==> final(self).generator() == seeded_generator(
                old(self).settings().seed,
            ),
    {
        self.rng = if self.config.seed != 0 {
            seeded(self.config.seed)
        } else {
            unseeded()
        };
        self.seen = HashMap::new();
    }

    /// Forgets the tokens that were seen; the generator goes on.
    pub fn forget(&mut self)
        ensures
            final(self).settings() == old(self).settings(),
            final(self).generator() == old(self).generator(),
            final(self).counts() == Map::<u32, u64>::empty(),
    {
        self.seen = HashMap::new();
    }

    /// Counts a token as seen once more.
    pub fn record(&mut self, token_id: u32)
        ensures
            final(self).settings() == old(self).settings(),
            final(self).generator() == old(self).generator(),
            final(self).counts() == recorded(old(self).counts(), token_id),
    {
        broadcast use vstd::std_specs::hash::group_hash_axioms;

        let n: u64 = match self.seen.get(&token_id) {
            Some(c) => *c,
            None => 0,
        };
        self.seen.insert(
            token_id,
            if n < u64::MAX {
                n + 1
            } else {
                n
            },
        );
        assert(self.seen@ =~= recorded(old(self).counts(), token_id));
    }
}

// ---------------------------------------------------------------------------------------------
// Which logits are penalised
// ---------------------------------------------------------------------------------------------

/// Whether a token's logit is penalised.
pub open spec fn is_penalized(s: &Sampler, id: int) -> bool {
    s.settings().repeat_penalty != ONE && s.counts().contains_key(id as u32) && s.counts()[id as u32]
        > 0
}

impl Sampler {
    /// The tokens among the first `vocab` whose logits are penalised, in ascending order.
    pub fn penalized(&self, vocab: usize) -> (r: Vec<u32>)
        ensures
            forall|i: int, j: int| 0 <= i < j < r@.len() ==> r@[i] < r@[j],
            forall|id: u32| #[trigger]
                r@.contains(id) <==> id < vocab && is_penalized(self, id as int),
    {
        broadcast use vstd::std_specs::hash::group_hash_axioms;

        let mut r: Vec<u32> = Vec::new();
        if self.config.repeat_penalty == ONE {
            return r;
        }
        let mut id: u64 = 0;
        while id < vocab as u64 && id < 0x1_0000_0000
            invariant
                id <= vocab,
                id <= 0x1_0000_0000,
                self.settings().repeat_penalty != ONE,
                forall|i: int| 0 <= i < r@.len() ==> #[trigger] r@[i] < id,
                forall|i: int, j: int| 0 <= i < j < r@.len() ==> r@[i] < r@[j],
                forall|k: u32| #[trigger]
                    r@.contains(k) <==> k < id && is_penalized(self, k as int),
            decreases vocab - id,
        {
            let token: u32 = id as u32;
            let hit = match self.seen.get(&token) {
                Some(c) => *c > 0,
                None => false,
            };
            let ghost before = r@;
            if hit {
                r.push(token);
                assert forall|k: u32| #[trigger]
                    r@.contains(k) <==> k < id + 1 && is_penalized(self, k as int) by {
                    if before.contains(k) {
                        let i = choose|i: int| 0 <= i < before.len() && before[i] == k;
                        assert(r@[i] == k);
                    }
                    if r@.contains(k) && k != token {
                        let i = choose|i: int| 0 <= i < r@.len() && r@[i] == k;
                        assert(before[i] == k);
                    }
                    if k == token {
                        assert(r@[before.len() as int] == token);
                    }
                }
            }
            id += 1;
        }
        r
    }

    /// Whether a penalty divides a logit (a positive one) or multiplies it (any other).
    pub fn divides(logit: u32) -> (r: bool)
        ensures
            r == (!f32_nan(logit) && f32_rank(logit) > 0),
    {
        !f32_is_nan(logit) && f32_key(logit) > 0
    }

}

// ---------------------------------------------------------------------------------------------
// The likeliest token
// ---------------------------------------------------------------------------------------------

/// Whether `i` is the last of the places of the largest number.
pub open spec fn is_last_largest(v: Seq<u32>, i: int) -> bool {
    &&& 0 <= i < v.len()
    &&& forall|j: int| 0 <= j < v.len() ==> f32_rank(#[trigger] v[j]) <= f32_rank(v[i])
    &&& forall|j: int| i < j < v.len() ==> f32_rank(#[trigger] v[j]) < f32_rank(v[i])
}

/// Whether `id` is the token whose logit is the largest, the last of several. A token has 32 bits.
pub open spec fn is_likeliest(logits: Seq<u32>, id: u32) -> bool {
    exists|i: int| #[trigger] is_last_largest(logits, i) && id == i as u32
}

impl Sampler {
    /// The token whose logit is the largest, the last of several; 0 of none.
    pub fn greedy(logits: &[u32]) -> (r: u32)
        requires
            comparable(logits@),
        ensures
            logits@.len() == 0 ==> r == 0,
            logits@.len() > 0 ==> is_likeliest(logits@, r),
    {
        if logits.len() == 0 {
            return 0;
        }
        let mut best: usize = 0;
        let mut i: usize = 1;
        while i < logits.len()
            invariant
                1 <= i <= logits@.len(),
                best < i,
                forall|j: int|
                    0 <= j < i ==> f32_rank(#[trigger] logits@[j]) <= f32_rank(
                        logits@[best as int],
                    ),
                forall|j: int|
                    best < j < i ==> f32_rank(#[trigger] logits@[j]) < f32_rank(
                        logits@[best as int],
                    ),
            decreases logits@.len() - i,
        {
            if f32_key(logits[i]) >= f32_key(logits[best]) {
                best = i;
            }
            i += 1;
        }
        assert(is_last_largest(logits@, best as int));
        #[verifier::truncate]
        (best as u32)
    }
}

// ---------------------------------------------------------------------------------------------
// The candidates
// ---------------------------------------------------------------------------------------------

/// Whether place `a` comes before place `b`: it is likelier, or as likely and further in front.
pub open spec fn comes_before(probs: Seq<u32>, a: int, b: int) -> bool {
    f32_rank(probs[a]) > f32_rank(probs[b]) || (f32_rank(probs[a]) == f32_rank(probs[b]) && a < b)
}

/// Whether `r` are the `k` likeliest places, in order.
pub open spec fn are_likeliest(probs: Seq<u32>, r: Seq<usize>, k: int) -> bool {
    &&& r.len() == k
    &&& forall|i: int| 0 <= i < k ==> #[trigger] r[i] < probs.len()
    &&& forall|i: int, j: int|
        #![trigger r[i], r[j]]
        0 <= i < j < k ==> comes_before(probs, r[i] as int, r[j] as int)
    &&& forall|m: int, i: int|
        #![trigger comes_before(probs, r[i] as int, m)]
        0 <= m < probs.len() && 0 <= i < k && !r.contains(m as usize) ==> comes_before(
            probs,
            r[i] as int,
            m,
        )
}

/// Whether only some of the likeliest tokens take part.
pub open spec fn limits_count(c: SamplerConfig, n: int) -> bool {
    0 < c.top_k < n
}

/// Whether only some share of the probability takes part.
pub open spec fn limits_share(c: SamplerConfig) -> bool {
    !f32_nan(c.top_p) && f32_rank(c.top_p) < f32_rank(ONE)
}

/// The places `0` to `n - 1`.
pub open spec fn places(n: nat) -> Seq<usize> {
    Seq::new(n, |i: int| i as usize)
}

/// Whether unlikely tokens are left out.
pub open spec fn limits_least(c: SamplerConfig) -> bool {
    !f32_nan(c.min_p) && f32_rank(c.min_p) > 0
}

/// Whether the choice is left to chance: the temperature is above [`COLD`].
pub open spec fn is_random(c: SamplerConfig) -> bool {
    !f32_nan(c.temperature) && f32_rank(c.temperature) > f32_rank(COLD)
}

/// The pairs by which places are sorted: the negated rank and the place.
spec fn sort_keys(probs: Seq<u32>) -> Seq<(i64, usize)> {
    Seq::new(probs.len(), |i: int| ((-f32_rank(probs[i])) as i64, i as usize))
}

/// The first `k` of the sorted pairs are the `k` likeliest places.
proof fn lemma_sorted_are_likeliest(probs: Seq<u32>, v: Seq<(i64, usize)>, r: Seq<usize>, k: int)
    requires
        probs.len() <= usize::MAX,
        v.to_multiset() == sort_keys(probs).to_multiset(),
        forall|i: int, j: int|
            #![trigger v[i], v[j]]
            0 <= i <= j < v.len() ==> v[i].0 < v[j].0 || (v[i].0 == v[j].0 && v[i].1 <= v[j].1),
        0 <= k <= probs.len(),
        r.len() == k,
        forall|i: int| 0 <= i < k ==> #[trigger] r[i] == v[i].1,
    ensures
        are_likeliest(probs, r, k),
{
    broadcast use group_to_multiset_ensures;

    let keys = sort_keys(probs);
    assert(v.len() == v.to_multiset().len() && keys.len() == keys.to_multiset().len());
    assert(keys.no_duplicates()) by {
        assert forall|i: int, j: int| 0 <= i < keys.len() && 0 <= j < keys.len() && i != j implies
            keys[i] != keys[j] by {
            assert(keys[i].1 == i && keys[j].1 == j);
        }
    }
    keys.lemma_multiset_has_no_duplicates();
    v.lemma_multiset_has_no_duplicates_conv();
    assert forall|i: int| 0 <= i < v.len() implies #[trigger] v[i].1 < probs.len() && v[i].0
        == -f32_rank(probs[v[i].1 as int]) by {
        assert(v.contains(v[i]));
        assert(v.to_multiset().count(v[i]) > 0);
        assert(keys.contains(v[i]));
    }
    assert forall|i: int, j: int|
        #![trigger v[i], v[j]]
        0 <= i < j < v.len() implies comes_before(probs, v[i].1 as int, v[j].1 as int) by {
        assert(v[i] != v[j]);
    }
    assert forall|i: int, j: int|
        #![trigger r[i], r[j]]
        0 <= i < j < k implies comes_before(probs, r[i] as int, r[j] as int) by {
        assert(r[i] == v[i].1 && r[j] == v[j].1);
    }
    assert forall|m: int, i: int|
        #![trigger comes_before(probs, r[i] as int, m)]
        0 <= m < probs.len() && 0 <= i < k && !r.contains(m as usize) implies comes_before(
        probs,
        r[i] as int,
        m,
    ) by {
        assert(keys[m] == ((-f32_rank(probs[m])) as i64, m as usize));
        assert(keys.contains(keys[m]));
        assert(keys.to_multiset().count(keys[m]) > 0);
        assert(v.contains(keys[m]));
        let j = choose|j: int| 0 <= j < v.len() && v[j] == keys[m];
        if j < k {
            assert(r[j] == m);
        }
        assert(r[i] == v[i].1);
    }
}

/// The `k` likeliest places.
fn likeliest(probs: &[u32], k: usize) -> (r: Vec<usize>)
    requires
        k <= probs@.len(),
    ensures
        are_likeliest(probs@, r@, k as int),
{
    let mut keys: Vec<(i64, usize)> = Vec::new();
    let mut i: usize = 0;
    assert(probs.len() == probs@.len());
    while i < probs.len()
        invariant
            i <= probs@.len(),
            keys@ == sort_keys(probs@).take(i as int),
        decreases probs@.len() - i,
    {
        keys.push((-f32_key(probs[i]), i));
        i += 1;
        assert(keys@ =~= sort_keys(probs@).take(i as int));
    }
    assert(keys@ =~= sort_keys(probs@));
    sort_pairs(&mut keys);
    proof {
        broadcast use group_to_multiset_ensures;

        assert(keys@.len() == keys@.to_multiset().len());
        assert(sort_keys(probs@).len() == sort_keys(probs@).to_multiset().len());
    }
    let mut r: Vec<usize> = Vec::new();
    let mut j: usize = 0;
    while j < k
        invariant
            j <= k <= keys@.len(),
            r@.len() == j,
            forall|m: int| 0 <= m < j ==> #[trigger] r@[m] == keys@[m].1,
        decreases k - j,
    {
        r.push(keys[j].1);
        j += 1;
    }
    proof {
        lemma_sorted_are_likeliest(probs@, keys@, r@, k as int);
    }
    r
}

/// Whether `r` are the places of the tokens that take part before any share of the probability is
/// cut off: the `top_k` likeliest, in order, where that is a limit; else all of them, in order where
/// a share will be cut off, and as they come where not.
pub open spec fn are_candidates(c: SamplerConfig, probs: Seq<u32>, r: Seq<usize>) -> bool {
    if limits_count(c, probs.len() as int) {
        are_likeliest(probs, r, c.top_k as int)
    } else if limits_share(c) {
        are_likeliest(probs, r, probs.len() as int)
    } else {
        r == places(probs.len())
    }
}

impl SamplerConfig {
    fn candidates(&self, probs: &[u32]) -> (r: Vec<usize>)
        ensures
            are_candidates(*self, probs@, r@),
            forall|i: int| 0 <= i < r@.len() ==> #[trigger] r@[i] < probs@.len(),
    {
        let n: usize = probs.len();
        if self.top_k > 0 && self.top_k < n {
            return likeliest(probs, self.top_k);
        }
        if self.cuts_share() {
            return likeliest(probs, n);
        }
        let mut r: Vec<usize> = Vec::new();
        let mut i: usize = 0;
        while i < n
            invariant
                i <= n,
                r@ == places(i as nat),
            decreases n - i,
        {
            r.push(i);
            i += 1;
            assert(r@ =~= places(i as nat));
        }
        r
    }

    fn cuts_share(&self) -> (r: bool)
        ensures
            r == limits_share(*self),
    {
        !f32_is_nan(self.top_p) && f32_key(self.top_p) < f32_key(ONE)
    }

    fn cuts_unlikely(&self) -> (r: bool)
        ensures
            r == limits_least(*self),
    {
        !f32_is_nan(self.min_p) && f32_key(self.min_p) > 0
    }

    /// Whether the probabilities of `n` tokens are put in order.
    pub fn puts_in_order(&self, n: usize) -> (r: bool)
        ensures
            r == (limits_count(*self, n as int) || limits_share(*self)),
    {
        (self.top_k > 0 && self.top_k < n) || self.cuts_share()
    }

    /// Whether the choice is left to chance.
    pub fn leaves_to_chance(&self) -> (r: bool)
        ensures
            r == is_random(*self),
    {
        !f32_is_nan(self.temperature) && f32_key(self.temperature) > f32_key(COLD)
    }
}

/// How many numbers it takes until one is at least `threshold`; all of them where none is.
pub open spec fn count_until(sums: Seq<u32>, threshold: u32) -> nat
    decreases sums.len(),
{
    if sums.len() == 0 {
        0
    } else if f32_at_least(sums[0], threshold) {
        1
    } else {
        1 + count_until(sums.drop_first(), threshold)
    }
}

/// How many candidates stay when a share of the probability is cut off: `sums[i]` is the
/// probability of the candidates up to and with `i`.
fn nucleus(sums: &[u32], threshold: u32) -> (r: usize)
    ensures
        r == count_until(sums@, threshold),
        r <= sums@.len(),
{
    let mut i: usize = 0;
    assert(sums@.skip(0) =~= sums@);
    while i < sums.len()
        invariant
            i <= sums@.len(),
            count_until(sums@, threshold) == i + count_until(sums@.skip(i as int), threshold),
        decreases sums@.len() - i,
    {
        assert(sums@.skip(i as int)[0] == sums@[i as int]);
        assert(sums@.skip(i as int).drop_first() =~= sums@.skip(i + 1));
        if f32_ge(sums[i], threshold) {
            return i + 1;
        }
        i += 1;
    }
    i
}

/// The candidates whose probability is at least `threshold`.
pub open spec fn likely_enough(candidates: Seq<usize>, probs: Seq<u32>, threshold: u32) -> Seq<
    usize,
> {
    candidates.filter(|c: usize| f32_at_least(probs[c as int], threshold))
}

/// The candidates whose probability is at least `threshold`, in the order that they have.
fn retain_likely(candidates: &[usize], probs: &[u32], threshold: u32) -> (r: Vec<usize>)
    requires
        forall|i: int| 0 <= i < candidates@.len() ==> #[trigger] candidates@[i] < probs@.len(),
    ensures
        r@ == likely_enough(candidates@, probs@, threshold),
{
    let ghost keep = |c: usize| f32_at_least(probs@[c as int], threshold);
    let mut r: Vec<usize> = Vec::new();
    let mut i: usize = 0;
    proof {
        reveal(Seq::filter);
        assert(candidates@.take(0) =~= Seq::<usize>::empty());
    }
    while i < candidates.len()
        invariant
            i <= candidates@.len(),
            forall|j: int| 0 <= j < candidates@.len() ==> #[trigger] candidates@[j] < probs@.len(),
            keep == (|c: usize| f32_at_least(probs@[c as int], threshold)),
            r@ == candidates@.take(i as int).filter(keep),
        decreases candidates@.len() - i,
    {
        let c: usize = candidates[i];
        proof {
            reveal(Seq::filter);
            let next = candidates@.take(i + 1);
            assert(next.drop_last() =~= candidates@.take(i as int));
            assert(next.last() == c);
        }
        if f32_ge(probs[c], threshold) {
            r.push(c);
        }
        i += 1;
    }
    assert(candidates@.take(i as int) =~= candidates@);
    r
}

/// The largest probability of the candidates, and 0 where there are none or all are below it.
pub open spec fn is_largest_of(candidates: Seq<usize>, probs: Seq<u32>, r: u32) -> bool {
    &&& r == 0 || exists|i: int|
        0 <= i < candidates.len() && probs[#[trigger] candidates[i] as int] == r
    &&& forall|i: int|
        0 <= i < candidates.len() && !f32_nan(probs[#[trigger] candidates[i] as int]) ==> f32_rank(
            probs[candidates[i] as int],
        ) <= f32_rank(r)
    &&& !f32_nan(r)
}

/// The largest probability of the candidates.
fn largest_probability(candidates: &[usize], probs: &[u32]) -> (r: u32)
    requires
        forall|i: int| 0 <= i < candidates@.len() ==> #[trigger] candidates@[i] < probs@.len(),
    ensures
        is_largest_of(candidates@, probs@, r),
{
    let mut best: u32 = 0;
    let mut i: usize = 0;
    while i < candidates.len()
        invariant
            i <= candidates@.len(),
            forall|j: int| 0 <= j < candidates@.len() ==> #[trigger] candidates@[j] < probs@.len(),
            !f32_nan(best),
            best == 0 || exists|j: int|
                0 <= j < candidates@.len() && probs@[#[trigger] candidates@[j] as int] == best,
            forall|j: int|
                0 <= j < i && !f32_nan(probs@[#[trigger] candidates@[j] as int]) ==> f32_rank(
                    probs@[candidates@[j] as int],
                ) <= f32_rank(best),
        decreases candidates@.len() - i,
    {
        let p: u32 = probs[candidates[i]];
        if !f32_is_nan(p) && f32_key(p) > f32_key(best) {
            best = p;
            assert(probs@[candidates@[i as int] as int] == best);
        }
        i += 1;
    }
    best
}

/// The place of the first number that is not above 0, or else of the last.
pub open spec fn first_exhausted(rests: Seq<u32>) -> int
    decreases rests.len(),
{
    if rests.len() <= 1 || f32_at_least(0, rests[0]) {
        0
    } else {
        1 + first_exhausted(rests.drop_first())
    }
}

/// The place on which a draw falls: `rests[i]` is what is left of the drawn number after the
/// probabilities up to and with the one at `i` are taken off.
fn place_drawn(rests: &[u32]) -> (r: usize)
    requires
        rests@.len() > 0,
    ensures
        r == first_exhausted(rests@),
        0 <= r < rests@.len(),
{
    let mut i: usize = 0;
    assert(rests@.skip(0) =~= rests@);
    while i < rests.len() - 1
        invariant
            i <= rests@.len() - 1,
            first_exhausted(rests@) == i + first_exhausted(rests@.skip(i as int)),
        decreases rests@.len() - i,
    {
        assert(rests@.skip(i as int)[0] == rests@[i as int]);
        assert(rests@.skip(i as int).drop_first() =~= rests@.skip(i + 1));
        if f32_ge(0, rests[i]) {
            return i;
        }
        i += 1;
    }
    i
}

// ---------------------------------------------------------------------------------------------
// Choosing step by step
// ---------------------------------------------------------------------------------------------

/// What is to be computed next before a token is chosen.
#[derive(Debug)]
pub enum Ask {
    /// Divide the logits by the temperature, and make probabilities of them. See
    /// [`Sampler::weigh`].
    Probabilities,
    /// The sums of the probabilities of these candidates, up to and with each, and the share of
    /// their total that is kept. See [`Choice::with_sums`].
    Sums(Vec<usize>),
    /// The least probability that is kept where this is the largest one. See
    /// [`Choice::with_bound`].
    Bound(u32),
    /// Draw a share of the total probability of these candidates: what is left of it after the
    /// probabilities up to and with each are taken off. See [`Choice::with_rests`].
    Draw(Vec<usize>),
    /// Nothing: this token is chosen.
    Token(u32),
}

/// A choice that is being made: the settings, the logits after the temperature, the probabilities,
/// and the places that still take part.
#[derive(Debug)]
pub struct Choice {
    config: SamplerConfig,
    scaled: Vec<u32>,
    probs: Vec<u32>,
    candidates: Vec<usize>,
}

/// A [`Choice`] with its lists as sequences.
pub struct ChoiceView {
    pub config: SamplerConfig,
    pub scaled: Seq<u32>,
    pub probs: Seq<u32>,
    pub candidates: Seq<usize>,
}

impl View for Choice {
    type V = ChoiceView;

    closed spec fn view(&self) -> ChoiceView {
        ChoiceView {
            config: self.config,
            scaled: self.scaled@,
            probs: self.probs@,
            candidates: self.candidates@,
        }
    }
}

/// Whether the numbers can be compared: there is but one, or none is a NaN.
pub open spec fn comparable(v: Seq<u32>) -> bool {
    v.len() >= 2 ==> forall|i: int| 0 <= i < v.len() ==> !f32_nan(#[trigger] v[i])
}

/// Whether there are logits, and every candidate is one of their places.
pub open spec fn choice_wf(c: ChoiceView) -> bool {
    &&& c.scaled.len() > 0
    &&& c.probs.len() == c.scaled.len()
    &&& forall|i: int| 0 <= i < c.candidates.len() ==> #[trigger] c.candidates[i] < c.probs.len()
}

/// What is asked when the candidates are final: a draw among them or, where none is left, nothing;
/// then the token with the largest logit is chosen.
pub open spec fn asks_for_draw(c: ChoiceView, ask: Ask) -> bool {
    if c.candidates.len() == 0 {
        ask is Token && is_likeliest(c.scaled, ask->Token_0)
    } else {
        ask is Draw && ask->Draw_0@ == c.candidates
    }
}

/// What is asked after a share of the probability was cut off.
pub open spec fn asks_after_share(c: ChoiceView, ask: Ask) -> bool {
    if limits_least(c.config) {
        ask is Bound && is_largest_of(c.candidates, c.probs, ask->Bound_0)
    } else {
        asks_for_draw(c, ask)
    }
}

/// What is asked once the probabilities are known.
pub open spec fn asks_after_weighing(c: ChoiceView, ask: Ask) -> bool {
    if limits_share(c.config) {
        ask is Sums && ask->Sums_0@ == c.candidates
    } else {
        asks_after_share(c, ask)
    }
}

fn copied(v: &Vec<usize>) -> (r: Vec<usize>)
    ensures
        r@ == v@,
{
    slice_to_vec(v.as_slice())
}

impl Sampler {
    /// Starts to choose a token by its logits, those of tokens that were seen being
    /// [penalised](Sampler::penalized) already. Without a temperature it is the largest.
    pub fn sample(&self, logits: &[u32]) -> (r: Ask)
        requires
            logits@.len() > 0,
            !is_random(self.settings()) ==> comparable(logits@),
        ensures
            is_random(self.settings()) ==> r is Probabilities,
            !is_random(self.settings()) ==> r is Token && is_likeliest(logits@, r->Token_0),
    {
        if self.config.leaves_to_chance() {
            Ask::Probabilities
        } else {
            Ask::Token(Sampler::greedy(logits))
        }
    }

    /// Goes on with the logits after the temperature, and with the probabilities. Probabilities
    /// that are put in order must be comparable.
    pub fn weigh(&self, scaled: Vec<u32>, probs: Vec<u32>) -> (r: (Choice, Ask))
        requires
            scaled@.len() > 0,
            probs@.len() == scaled@.len(),
            limits_count(self.settings(), probs@.len() as int) || limits_share(self.settings())
                ==> comparable(probs@),
        ensures
            r.0@.config == self.settings(),
            r.0@.scaled == scaled@,
            r.0@.probs == probs@,
            are_candidates(self.settings(), probs@, r.0@.candidates),
            choice_wf(r.0@),
            asks_after_weighing(r.0@, r.1),
    {
        let candidates = self.config.candidates(probs.as_slice());
        let c = Choice { config: self.config, scaled, probs, candidates };
        assert(c.candidates@.len() > 0);
        let ask = if c.config.cuts_share() {
            Ask::Sums(copied(&c.candidates))
        } else {
            c.ask_after_share()
        };
        (c, ask)
    }

    /// Chooses a token by chance alone: `total` is the sum of all probabilities, and `rests[i]` what
    /// is left of a drawn share of it after the probabilities up to and with that of token `i` are
    /// taken off. Without any probability it is token 0.
    pub fn random(total: u32, rests: &[u32]) -> (r: u32)
        requires
            !f32_at_least(0, total) ==> rests@.len() > 0,
        ensures
            r == (if f32_at_least(0, total) {
                0
            } else {
                first_exhausted(rests@) as u32
            }),
    {
        if f32_ge(0, total) {
            0
        } else {
            #[verifier::truncate]
            (place_drawn(rests) as u32)
        }
    }
}

impl Choice {
    /// The places that still take part.
    pub fn candidates(&self) -> (r: &[usize])
        ensures
            r@ == self@.candidates,
    {
        self.candidates.as_slice()
    }

    fn ask_for_draw(&self) -> (r: Ask)
        requires
            choice_wf(self@),
            self@.candidates.len() == 0 ==> comparable(self@.scaled),
        ensures
            asks_for_draw(self@, r),
    {
        if self.candidates.len() == 0 {
            Ask::Token(Sampler::greedy(self.scaled.as_slice()))
        } else {
            Ask::Draw(copied(&self.candidates))
        }
    }

    fn ask_after_share(&self) -> (r: Ask)
        requires
            choice_wf(self@),
            self@.candidates.len() > 0,
        ensures
            asks_after_share(self@, r),
    {
        if self.config.cuts_unlikely() {
            Ask::Bound(largest_probability(self.candidates.as_slice(), self.probs.as_slice()))
        } else {
            self.ask_for_draw()
        }
    }

    /// Goes on with the sums of the candidates' probabilities and the share of their total that is
    /// kept: the candidates stay until their sum reaches it.
    pub fn with_sums(&mut self, sums: &[u32], threshold: u32) -> (r: Ask)
        requires
            choice_wf(old(self)@),
            sums@.len() == old(self)@.candidates.len(),
            sums@.len() > 0,
        ensures
            choice_wf(final(self)@),
            final(self)@ == (ChoiceView {
                candidates: old(self)@.candidates.take(count_until(sums@, threshold) as int),
                ..old(self)@
            }),
            asks_after_share(final(self)@, r),
            0 < old(self)@.config.min_p <= 0x7f80_0000 ==> r is Bound,
    {
        let n: usize = nucleus(sums, threshold);
        self.candidates.truncate(n);
        assert(self.candidates@ =~= old(self)@.candidates.take(n as int));
        self.ask_after_share()
    }

    /// Goes on with the least probability that is kept.
    pub fn with_bound(&mut self, bound: u32) -> (r: Ask)
        requires
            choice_wf(old(self)@),
            likely_enough(old(self)@.candidates, old(self)@.probs, bound).len() == 0
                ==> comparable(old(self)@.scaled),
        ensures
            choice_wf(final(self)@),
            final(self)@ == (ChoiceView {
                candidates: likely_enough(old(self)@.candidates, old(self)@.probs, bound),
                ..old(self)@
            }),
            asks_for_draw(final(self)@, r),
    {
        let kept = retain_likely(self.candidates.as_slice(), self.probs.as_slice(), bound);
        proof {
            let keep = |c: usize| f32_at_least(self@.probs[c as int], bound);
            assert forall|i: int| 0 <= i < kept@.len() implies #[trigger] kept@[i]
                < self@.probs.len() by {
                self@.candidates.lemma_filter_contains_rev(keep, kept@[i]);
            }
        }
        self.candidates = kept;
        self.ask_for_draw()
    }

    /// The token on which the draw falls.
    pub fn with_rests(&self, rests: &[u32]) -> (r: u32)
        requires
            choice_wf(self@),
            0 < self@.candidates.len() == rests@.len(),
        ensures
            0 <= first_exhausted(rests@) < rests@.len(),
            self@.candidates[first_exhausted(rests@)] < self@.probs.len(),
            r == self@.candidates[first_exhausted(rests@)] as u32,
    {
        let i: usize = place_drawn(rests);
        assert(self.candidates@[i as int] < self@.probs.len());
        #[verifier::truncate]
        (self.candidates[i] as u32)
    }
}

// ---------------------------------------------------------------------------------------------
// Laws
// ---------------------------------------------------------------------------------------------

/// A token that was counted is penalised from then on, and counting it changes nothing for the
/// others.
pub proof fn recorded_is_penalised(before: Map<u32, u64>, id: u32, other: u32)
    requires
        other != id,
    ensures
        recorded(before, id).contains_key(id),
        recorded(before, id)[id] > 0,
        recorded(before, id).contains_key(other) == before.contains_key(other),
        before.contains_key(other) ==> recorded(before, id)[other] == before[other],
{
}

/// The likeliest token is always among the candidates.
pub proof fn likeliest_takes_part(probs: Seq<u32>, r: Seq<usize>, k: int, best: int)
    requires
        are_likeliest(probs, r, k),
        0 < k,
        probs.len() <= usize::MAX,
        0 <= best < probs.len(),
        forall|j: int| 0 <= j < probs.len() && j != best ==> comes_before(probs, best, j),
    ensures
        r[0] == best,
{
    if !r.contains(best as usize) {
        assert(comes_before(probs, r[0] as int, best));
        assert(comes_before(probs, best, r[0] as int));
    } else {
        let i = choose|i: int| 0 <= i < r.len() && r[i] == best as usize;
        if i > 0 {
            assert(comes_before(probs, r[0] as int, r[i] as int));
            if r[0] != best {
                assert(comes_before(probs, best, r[0] as int));
            }
        }
    }
}

} // verus!
