//! The keys and values of the tokens that a model has seen.
use vstd::prelude::*;
use vstd::slice::slice_subrange;

verus! {

/// The keys and values of one layer: for each token `n_kv_heads` heads of `head_dim` numbers, one
/// token behind the other.
#[derive(Debug, Clone)]
pub struct KvCache<T> {
    n_kv_heads: usize,
    head_dim: usize,
    k: Vec<T>,
    v: Vec<T>,
}

/// Where the numbers of a head of a token start.
pub open spec fn head_start(token: int, head: int, heads: int, dim: int) -> int {
    token * (heads * dim) + head * dim
}

impl<T: Copy> KvCache<T> {
    /// All keys, token by token.
    pub closed spec fn keys(&self) -> Seq<T> {
        self.k@
    }

    /// All values, token by token.
    pub closed spec fn values(&self) -> Seq<T> {
        self.v@
    }

    /// How many heads a token has.
    pub closed spec fn heads(&self) -> int {
        self.n_kv_heads as int
    }

    /// How many numbers a head has.
    pub closed spec fn dim(&self) -> int {
        self.head_dim as int
    }

    /// How many numbers a token has.
    pub open spec fn width(&self) -> int {
        self.heads() * self.dim()
    }

    /// How many tokens there are.
    pub open spec fn tokens(&self) -> int {
        self.keys().len() as int / (if self.width() == 0 {
            1
        } else {
            self.width()
        })
    }

    /// The sizes are countable, and keys and values hold the same number of whole tokens.
    pub open spec fn wf(&self) -> bool {
        &&& 0 <= self.heads()
        &&& 0 <= self.dim()
        &&& 0 <= self.width() <= usize::MAX
        &&& self.keys().len() == self.values().len()
        &&& self.keys().len() == self.tokens() * self.width()
    }

    /// No tokens. Heads and numbers must be few enough for a token to be counted.
    pub fn new(n_kv_heads: usize, head_dim: usize) -> (r: Self)
        ensures
            r.heads() == n_kv_heads,
            r.dim() == head_dim,
            r.keys() == Seq::<T>::empty(),
            r.values() == Seq::<T>::empty(),
            n_kv_heads * head_dim <= usize::MAX ==> r.wf() && r.tokens() == 0,
    {
        let r = KvCache { n_kv_heads, head_dim, k: Vec::new(), v: Vec::new() };
        proof {
            let d = if r.width() == 0 {
                1
            } else {
                r.width()
            };
            assert(0 <= n_kv_heads * head_dim) by (nonlinear_arith);
            assert(0int / d == 0) by (nonlinear_arith)
                requires
                    d >= 1,
            ;
            assert(0 * r.width() == 0);
        }
        r
    }

    /// How many heads a token has.
    pub fn n_kv_heads(&self) -> (r: usize)
        ensures
            r == self.heads(),
    {
        self.n_kv_heads
    }

    /// How many numbers a head has.
    pub fn head_dim(&self) -> (r: usize)
        ensures
            r == self.dim(),
    {
        self.head_dim
    }

    /// How many tokens there are.
    pub fn seq_len(&self) -> (r: usize)
        requires
            self.wf(),
        ensures
            r == self.tokens(),
    {
        let n: usize = self.n_kv_heads * self.head_dim;
        let d: usize = if n == 0 {
            1
        } else {
            n
        };
        self.k.len() / d
    }

    /// One more token: the first numbers of `k` and `v`, as many as a token has. Where either has
    /// fewer, nothing happens.
    pub fn append(&mut self, k: &[T], v: &[T])
        requires
            old(self).wf(),
        ensures
            final(self).wf(),
            final(self).heads() == old(self).heads(),
            final(self).dim() == old(self).dim(),
            k@.len() < old(self).width() || v@.len() < old(self).width() ==> *final(self) == *old(
                self,
            ),
            k@.len() >= old(self).width() && v@.len() >= old(self).width() ==> {
                &&& final(self).keys() == old(self).keys() + k@.take(old(self).width())
                &&& final(self).values() == old(self).values() + v@.take(old(self).width())
                &&& old(self).width() > 0 ==> final(self).tokens() == old(self).tokens() + 1
                &&& old(self).width() == 0 ==> final(self).tokens() == old(self).tokens()
            },
    {
        let n: usize = self.n_kv_heads * self.head_dim;
        if k.len() < n || v.len() < n {
            return;
        }
        push_all(&mut self.k, k, n);
        push_all(&mut self.v, v, n);
        proof {
            let t = old(self).tokens();
            let w = old(self).width();
            if w > 0 {
                assert((t + 1) * w == t * w + w) by (nonlinear_arith);
                vstd::arithmetic::div_mod::lemma_div_multiples_vanish(t + 1, w);
                assert(w * (t + 1) == (t + 1) * w) by (nonlinear_arith);
            } else {
                assert(t * w == 0) by (nonlinear_arith)
                    requires
                        w == 0,
                ;
            }
        }
    }

    /// All keys.
    pub fn get_k(&self) -> (r: &[T])
        ensures
            r@ == self.keys(),
    {
        self.k.as_slice()
    }

    /// All values.
    pub fn get_v(&self) -> (r: &[T])
        ensures
            r@ == self.values(),
    {
        self.v.as_slice()
    }

    /// The keys of one head of one token, where they are there.
    pub fn k_at(&self, seq: usize, head: usize) -> (r: Option<&[T]>)
        requires
            self.wf(),
        ensures
            ({
                let at = head_start(seq as int, head as int, self.heads(), self.dim());
                if at + self.dim() <= self.keys().len() {
                    r is Some && r->Some_0@ == self.keys().subrange(at, at + self.dim())
                } else {
                    r is None
                }
            }),
    {
        head_of(self.k.as_slice(), seq, head, self.n_kv_heads, self.head_dim)
    }

    /// The values of one head of one token, where they are there.
    pub fn v_at(&self, seq: usize, head: usize) -> (r: Option<&[T]>)
        requires
            self.wf(),
        ensures
            ({
                let at = head_start(seq as int, head as int, self.heads(), self.dim());
                if at + self.dim() <= self.values().len() {
                    r is Some && r->Some_0@ == self.values().subrange(at, at + self.dim())
                } else {
                    r is None
                }
            }),
    {
        head_of(self.v.as_slice(), seq, head, self.n_kv_heads, self.head_dim)
    }

    /// No tokens any more.
    pub fn clear(&mut self)
        ensures
            final(self).heads() == old(self).heads(),
            final(self).dim() == old(self).dim(),
            final(self).keys() == Seq::<T>::empty(),
            final(self).values() == Seq::<T>::empty(),
            final(self).tokens() == 0,
            old(self).wf() ==> final(self).wf(),
    {
        self.k.clear();
        self.v.clear();
        proof {
            let d = if self.width() == 0 {
                1
            } else {
                self.width()
            };
            assert(0int / d == 0) by (nonlinear_arith)
                requires
                    d != 0,
            ;
            assert(0 * self.width() == 0);
        }
    }

    /// Only the first `new_len` tokens, where there are more.
    pub fn truncate(&mut self, new_len: usize)
        requires
            old(self).wf(),
        ensures
            final(self).wf(),
            final(self).heads() == old(self).heads(),
            final(self).dim() == old(self).dim(),
            new_len >= old(self).tokens() ==> *final(self) == *old(self),
            new_len < old(self).tokens() ==> {
                &&& final(self).tokens() == new_len
                &&& final(self).keys() == old(self).keys().take(new_len * old(self).width())
                &&& final(self).values() == old(self).values().take(new_len * old(self).width())
            },
    {
        let n: usize = self.n_kv_heads * self.head_dim;
        let len: usize = self.k.len();
        proof {
            let t = old(self).tokens();
            let w = old(self).width();
            if w == 0 {
                assert(t * w == 0) by (nonlinear_arith)
                    requires
                        w == 0,
                ;
            }
            if new_len < t {
                assert(new_len * w <= t * w) by (nonlinear_arith)
                    requires
                        new_len <= t,
                        w >= 0,
                ;
                if w > 0 {
                    assert(new_len * w < t * w) by (nonlinear_arith)
                        requires
                            new_len < t,
                            w > 0,
                    ;
                    vstd::arithmetic::div_mod::lemma_div_multiples_vanish(new_len as int, w);
                    assert(w * new_len == new_len * w) by (nonlinear_arith);
                }
            } else {
                assert(new_len * w >= t * w) by (nonlinear_arith)
                    requires
                        new_len >= t,
                        w >= 0,
                ;
            }
            assert(old(self).keys().take(old(self).keys().len() as int) =~= old(self).keys());
            assert(old(self).values().take(old(self).values().len() as int) =~= old(self).values());
        }
        match new_len.checked_mul(n) {
            Some(keep) => if keep < len {
                self.k.truncate(keep);
                self.v.truncate(keep);
            },
            None => {},
        }
    }
}

/// The first `n` numbers of `from`, behind those of `to`.
fn push_all<T: Copy>(to: &mut Vec<T>, from: &[T], n: usize)
    requires
        n <= from@.len(),
    ensures
        final(to)@ == old(to)@ + from@.take(n as int),
{
    let ghost start = to@;
    let mut i: usize = 0;
    assert(to@ =~= start + from@.take(0));
    while i < n
        invariant
            i <= n <= from@.len(),
            to@ == start + from@.take(i as int),
        decreases n - i,
    {
        to.push(from[i]);
        i += 1;
        assert(to@ =~= start + from@.take(i as int));
    }
}

/// The numbers of one head of one token.
fn head_of<T>(all: &[T], seq: usize, head: usize, heads: usize, dim: usize) -> (r: Option<&[T]>)
    requires
        heads * dim <= usize::MAX,
    ensures
        ({
            let at = head_start(seq as int, head as int, heads as int, dim as int);
            if at + dim <= all@.len() {
                r is Some && r->Some_0@ == all@.subrange(at, at + dim)
            } else {
                r is None
            }
        }),
{
    let n: usize = heads * dim;
    let len: usize = all.len();
    proof {
        assert(0 <= seq * n) by (nonlinear_arith);
        assert(0 <= head * dim) by (nonlinear_arith);
    }
    let a: usize = match seq.checked_mul(n) {
        Some(x) => x,
        None => return None,
    };
    let b: usize = match head.checked_mul(dim) {
        Some(x) => x,
        None => return None,
    };
    let base: usize = match a.checked_add(b) {
        Some(x) => x,
        None => return None,
    };
    let end: usize = match base.checked_add(dim) {
        Some(x) => x,
        None => return None,
    };
    if end <= len {
        Some(slice_subrange(all, base, end))
    } else {
        None
    }
}

/// The caches of all layers.
#[derive(Debug, Clone)]
pub struct Cache<T> {
    layers: Vec<KvCache<T>>,
}

impl<T: Copy> View for Cache<T> {
    type V = Seq<KvCache<T>>;

    closed spec fn view(&self) -> Seq<KvCache<T>> {
        self.layers@
    }
}

impl<T: Copy> Cache<T> {
    /// Every layer is well-formed.
    pub open spec fn wf(&self) -> bool {
        forall|i: int| 0 <= i < self@.len() ==> (#[trigger] self@[i]).wf()
    }

    /// `n_layers` layers without tokens.
    pub fn new(n_layers: usize, n_kv_heads: usize, head_dim: usize) -> (r: Self)
        ensures
            r@.len() == n_layers,
            forall|i: int|
                0 <= i < n_layers ==> (#[trigger] r@[i]).heads() == n_kv_heads && r@[i].dim()
                    == head_dim && r@[i].keys() == Seq::<T>::empty() && r@[i].values() == Seq::<
                    T,
                >::empty(),
            n_kv_heads * head_dim <= usize::MAX ==> r.wf() && forall|i: int|
                0 <= i < n_layers ==> (#[trigger] r@[i]).tokens() == 0,
    {
        let mut layers: Vec<KvCache<T>> = Vec::new();
        let mut l: usize = 0;
        while l < n_layers
            invariant
                l <= n_layers,
                layers@.len() == l,
                forall|i: int|
                    0 <= i < l ==> (#[trigger] layers@[i]).heads() == n_kv_heads && layers@[i].dim()
                        == head_dim && layers@[i].keys() == Seq::<T>::empty() && layers@[i].values()
                        == Seq::<T>::empty() && (n_kv_heads * head_dim <= usize::MAX
                        ==> layers@[i].wf() && layers@[i].tokens() == 0),
            decreases n_layers - l,
        {
            layers.push(KvCache::new(n_kv_heads, head_dim));
            l += 1;
        }
        Cache { layers }
    }

    /// How many layers there are.
    pub fn n_layers(&self) -> (r: usize)
        ensures
            r == self@.len(),
    {
        self.layers.len()
    }

    /// One layer.
    pub fn layer(&self, l: usize) -> (r: Option<&KvCache<T>>)
        ensures
            l < self@.len() ==> r is Some && *r->Some_0 == self@[l as int],
            l >= self@.len() ==> r is None,
    {
        if l < self.layers.len() {
            Some(&self.layers[l])
        } else {
            None
        }
    }

    /// One layer, to change it.
    pub fn layer_mut(&mut self, l: usize) -> (r: Option<&mut KvCache<T>>)
        ensures
            l < old(self)@.len() ==> r is Some && *r->Some_0 == old(self)@[l as int]
                && final(self)@ == old(self)@.update(l as int, *final(r->Some_0)),
            l >= old(self)@.len() ==> r is None && *final(self) == *old(self),
    {
        if l < self.layers.len() {
            Some(&mut self.layers[l])
        } else {
            None
        }
    }

    /// No tokens in any layer any more.
    pub fn clear_all(&mut self)
        ensures
            final(self)@.len() == old(self)@.len(),
            old(self).wf() ==> final(self).wf(),
            forall|i: int|
                0 <= i < old(self)@.len() ==> (#[trigger] final(self)@[i]).keys() == Seq::<
                    T,
                >::empty() && final(self)@[i].values() == Seq::<T>::empty()
                    && final(self)@[i].tokens() == 0 && final(self)@[i].heads()
                    == old(self)@[i].heads() && final(self)@[i].dim() == old(self)@[i].dim(),
    {
        let mut l: usize = 0;
        while l < self.layers.len()
            invariant
                l <= self@.len(),
                self@.len() == old(self)@.len(),
                forall|i: int| l <= i < self@.len() ==> self@[i] == old(self)@[i],
                forall|i: int|
                    0 <= i < l ==> (#[trigger] self@[i]).keys() == Seq::<T>::empty()
                        && self@[i].values() == Seq::<T>::empty() && self@[i].tokens() == 0
                        && self@[i].heads() == old(self)@[i].heads() && self@[i].dim()
                        == old(self)@[i].dim() && (old(self)@[i].wf() ==> self@[i].wf()),
            decreases self@.len() - l,
        {
            self.layers[l].clear();
            l += 1;
        }
    }

    /// Only the first `new_len` tokens of every layer, where it has more.
    pub fn truncate_all(&mut self, new_len: usize)
        requires
            old(self).wf(),
        ensures
            final(self)@.len() == old(self)@.len(),
            final(self).wf(),
            forall|i: int|
                0 <= i < old(self)@.len() ==> truncated(
                    old(self)@[i],
                    #[trigger] final(self)@[i],
                    new_len as int,
                ),
    {
        let mut l: usize = 0;
        while l < self.layers.len()
            invariant
                l <= self@.len(),
                self@.len() == old(self)@.len(),
                old(self).wf(),
                forall|i: int| l <= i < self@.len() ==> self@[i] == old(self)@[i],
                forall|i: int|
                    0 <= i < l ==> truncated(old(self)@[i], #[trigger] self@[i], new_len as int)
                        && self@[i].wf(),
            decreases self@.len() - l,
        {
            assert(self@[l as int].wf());
            self.layers[l].truncate(new_len);
            l += 1;
        }
    }
}

/// Whether `b` is `a` with only its first `n` tokens.
pub open spec fn truncated<T: Copy>(a: KvCache<T>, b: KvCache<T>, n: int) -> bool {
    &&& b.heads() == a.heads()
    &&& b.dim() == a.dim()
    &&& n >= a.tokens() ==> b == a
    &&& n < a.tokens() ==> b.keys() == a.keys().take(n * a.width()) && b.values()
        == a.values().take(n * a.width())
}

// ---------------------------------------------------------------------------------------------
// Laws
// ---------------------------------------------------------------------------------------------

/// Going back undoes appending: the first tokens of a cache to which one was appended are those
/// that it had.
pub proof fn truncation_undoes_append<T: Copy>(
    a: KvCache<T>,
    b: KvCache<T>,
    c: KvCache<T>,
    k: Seq<T>,
    v: Seq<T>,
)
    requires
        a.wf(),
        a.width() > 0,
        b.wf(),
        b.heads() == a.heads(),
        b.dim() == a.dim(),
        k.len() == a.width(),
        v.len() == a.width(),
        b.keys() == a.keys() + k,
        b.values() == a.values() + v,
        truncated(b, c, a.tokens()),
    ensures
        c.keys() == a.keys(),
        c.values() == a.values(),
{
    let (t, w) = (a.tokens(), a.width());
    assert(b.tokens() == t + 1) by {
        assert((t + 1) * w == t * w + w) by (nonlinear_arith);
        vstd::arithmetic::div_mod::lemma_div_multiples_vanish(t + 1, w);
        assert(w * (t + 1) == (t + 1) * w) by (nonlinear_arith);
    }
    assert(b.keys().take(t * w) =~= a.keys());
    assert(b.values().take(t * w) =~= a.values());
}

/// What is appended is found again: head `h` of a new token are its numbers of that head.
pub proof fn appended_head_is_found<T: Copy>(a: KvCache<T>, b: KvCache<T>, k: Seq<T>, h: int)
    requires
        a.wf(),
        a.width() > 0,
        k.len() == a.width(),
        b.heads() == a.heads(),
        b.dim() == a.dim(),
        b.keys() == a.keys() + k,
        0 <= h < a.heads(),
    ensures
        ({
            let at = head_start(a.tokens(), h, b.heads(), b.dim());
            &&& at + b.dim() <= b.keys().len()
            &&& b.keys().subrange(at, at + b.dim()) == k.subrange(h * a.dim(), (h + 1) * a.dim())
        }),
{
    let (t, w, d) = (a.tokens(), a.width(), a.dim());
    assert(0 <= h * d && (h + 1) * d == h * d + d && (h + 1) * d <= a.heads() * d)
        by (nonlinear_arith)
        requires
            0 <= h < a.heads(),
            d >= 0,
    ;
    let at = head_start(t, h, b.heads(), d);
    assert(b.keys().subrange(at, at + d) =~= k.subrange(h * d, (h + 1) * d));
}

} // verus!
