//! What the sizes of operands must satisfy, and where the parts of a cache lie.
use vstd::prelude::*;
use crate::error::{ErrorView, GgufResult};
use crate::infer::cache::{head_start, truncated, KvCache};
use crate::infer::model::weights::embed_row;
use crate::infer::ops::{has_nan, kv_head_of, matmul_fits, matvec_fits, sees};
use crate::infer::quant::row_size;
use crate::types::{ggml_block_bytes, ggml_block_size, GgmlType};

verus! {

/// A product of a matrix with a vector is refused exactly where the matrix holds too few numbers,
/// or the vector or the result has another length than the matrix asks for.
pub proof fn products_need_fitting_operands(a: u64, in_dim: u64, out_dim: u64, x: u64, y: u64)
    ensures
        matvec_fits(a, in_dim, out_dim, x, y) is Ok <==> in_dim * out_dim <= a && x == in_dim && y
            == out_dim,
{
}

/// A product of matrices is refused exactly where one of the three holds too few numbers.
pub proof fn matrix_products_need_fitting_operands(
    a: u64,
    b: u64,
    c: u64,
    rows: u64,
    inner: u64,
    cols: u64,
)
    ensures
        matmul_fits(a, b, c, rows, inner, cols) is Ok <==> rows * inner <= a && inner * cols <= b
            && rows * cols <= c,
{
}

/// In a product of matrices whose sizes were compared every number that is read or written lies
/// inside its matrix.
pub proof fn matrix_places_lie_inside(
    a: u64,
    b: u64,
    c: u64,
    rows: u64,
    inner: u64,
    cols: u64,
    i: int,
    j: int,
    k: int,
)
    requires
        matmul_fits(a, b, c, rows, inner, cols) is Ok,
        0 <= i < rows,
        0 <= j < cols,
        0 <= k < inner,
    ensures
        0 <= i * inner + k < a,
        0 <= k * cols + j < b,
        0 <= i * cols + j < c,
{
    assert(0 <= i * inner && i * inner + k < rows * inner) by (nonlinear_arith)
        requires
            0 <= i < rows,
            0 <= k < inner,
    ;
    assert(0 <= k * cols && k * cols + j < inner * cols) by (nonlinear_arith)
        requires
            0 <= k < inner,
            0 <= j < cols,
    ;
    assert(0 <= i * cols && i * cols + j < rows * cols) by (nonlinear_arith)
        requires
            0 <= i < rows,
            0 <= j < cols,
    ;
}

/// The first attention head reads the first key and value head, and as many neighbours as share one
/// read the same; where there are as many of both each reads its own.
pub proof fn neighbouring_heads_share(head: int, kv: int, share: int)
    requires
        0 < share,
        0 < kv,
        0 <= head < kv * share,
    ensures
        kv_head_of(0, kv * share, kv) == 0,
        head + share < kv * share ==> kv_head_of(head + share, kv * share, kv) == kv_head_of(
            head,
            kv * share,
            kv,
        ) + 1,
        share == 1 ==> kv_head_of(head, kv * share, kv) == head,
{
    vstd::arithmetic::div_mod::lemma_div_multiples_vanish(share, kv);
    assert((kv * share) / kv == share);
    vstd::arithmetic::div_mod::lemma_div_plus_one(head, share);
    assert(head + share == share + head);
    assert(0int / share == 0) by (nonlinear_arith)
        requires
            share > 0,
    ;
    if share == 1 {
        vstd::arithmetic::div_mod::lemma_div_basics(head);
    }
}

/// The numbers of a token stand behind those of the token before it, head behind head.
pub proof fn heads_stand_behind_each_other(token: int, head: int, heads: int, dim: int)
    ensures
        head_start(0, 0, heads, dim) == 0,
        head_start(token, head + 1, heads, dim) == head_start(token, head, heads, dim) + dim,
        head_start(token, heads, heads, dim) == head_start(token + 1, 0, heads, dim),
{
    assert(0 * (heads * dim) == 0 && 0 * dim == 0) by (nonlinear_arith);
    assert((head + 1) * dim == head * dim + dim) by (nonlinear_arith);
    assert((token + 1) * (heads * dim) == token * (heads * dim) + heads * dim) by (nonlinear_arith);
}

/// A number is one of those that are refused exactly where its exponent is full and its fraction is
/// not nought, with either sign.
pub proof fn only_nans_are_refused(values: Seq<u32>, i: int)
    requires
        0 <= i < values.len(),
    ensures
        values[i] % 0x8000_0000 > 0x7f80_0000 ==> has_nan(values),
        (forall|k: int| 0 <= k < values.len() ==> (#[trigger] values[k]) % 0x8000_0000
            <= 0x7f80_0000) ==> !has_nan(values),
{
    if values[i] % 0x8000_0000 > 0x7f80_0000 {
        lemma_nan(values[i]);
    }
    if forall|k: int| 0 <= k < values.len() ==> (#[trigger] values[k]) % 0x8000_0000 <= 0x7f80_0000 {
        assert forall|k: int| 0 <= k < values.len() implies !crate::float::f32_nan(
            #[trigger] values[k],
        ) by {
            lemma_nan(values[k]);
        }
    }
}

proof fn lemma_nan(b: u32)
    ensures
        crate::float::f32_nan(b) <==> b % 0x8000_0000 > 0x7f80_0000,
{
}

/// The bytes of a row are to its columns as those of a block are to its elements; a row that does
/// not fill whole blocks has no size.
pub proof fn rows_are_whole_blocks(ty: GgmlType, cols: u64)
    requires
        ggml_block_size(ty) is Some,
    ensures
        row_size(ty, cols) is Ok ==> row_size(ty, cols)->Ok_0 * ggml_block_size(ty)->Some_0 == cols
            * ggml_block_bytes(ty)->Some_0,
        row_size(ty, cols) is Ok <==> (exists|blocks: nat|
            cols == #[trigger] (blocks * ggml_block_size(ty)->Some_0)),
{
    let (n, size, bytes) = (
        cols as int,
        ggml_block_size(ty)->Some_0 as int,
        ggml_block_bytes(ty)->Some_0 as int,
    );
    assert(size > 0);
    vstd::arithmetic::div_mod::lemma_fundamental_div_mod(n, size);
    let q = n / size;
    if row_size(ty, cols) is Ok {
        assert((q * bytes) * size == n * bytes) by (nonlinear_arith)
            requires
                n == size * q,
        ;
        let blocks = q as nat;
        assert(blocks * ggml_block_size(ty)->Some_0 == n) by (nonlinear_arith)
            requires
                blocks == q,
                size == ggml_block_size(ty)->Some_0,
                n == size * q,
        ;
    }
    if exists|blocks: nat| cols == #[trigger] (blocks * ggml_block_size(ty)->Some_0) {
        let blocks = choose|blocks: nat| cols == #[trigger] (blocks * ggml_block_size(ty)->Some_0);
        vstd::arithmetic::div_mod::lemma_fundamental_div_mod_converse(n, size, blocks as int, 0);
    }
}

/// An operand of the wrong length is reported with the length that was expected and the one that
/// was found.
pub proof fn wrong_lengths_are_told(a: u64, in_dim: u64, out_dim: u64, x: u64, y: u64)
    requires
        in_dim * out_dim <= u64::MAX,
    ensures
        a < in_dim * out_dim ==> matvec_fits(a, in_dim, out_dim, x, y) == Err::<(), ErrorView>(
            ErrorView::DequantError {
                dtype: "F32"@,
                expected: (in_dim * out_dim) as u64,
                actual: a,
            },
        ),
        a >= in_dim * out_dim && x != in_dim ==> matvec_fits(a, in_dim, out_dim, x, y) == Err::<
            (),
            ErrorView,
        >(ErrorView::DequantError { dtype: "F32"@, expected: in_dim, actual: x }),
        a >= in_dim * out_dim && x == in_dim && y != out_dim ==> matvec_fits(
            a,
            in_dim,
            out_dim,
            x,
            y,
        ) == Err::<(), ErrorView>(
            ErrorView::DequantError { dtype: "F32"@, expected: out_dim, actual: y },
        ),
{
}

/// A token sees itself and every token before it, and none behind it; before the first place nothing
/// is seen.
pub proof fn tokens_see_what_is_before_them(s: usize, pos: i64, r: bool)
    requires
        call_ensures(sees, (s, pos), r),
    ensures
        s == pos ==> r,
        s < pos ==> r,
        s > pos ==> !r,
        pos < 0 ==> !r,
{
}

/// The rows of an embedding stand one behind the other without a gap, and a token has one exactly
/// where the whole row is inside.
pub proof fn embedding_rows_follow_each_other(
    token: u32,
    dim: u32,
    len: u64,
    r: GgufResult<u64>,
    next: GgufResult<u64>,
)
    requires
        token < u32::MAX,
        call_ensures(embed_row, (token, dim, len), r),
        call_ensures(embed_row, ((token + 1) as u32, dim, len), next),
    ensures
        token == 0 && dim <= len ==> r is Ok && r->Ok_0 == 0,
        r is Ok ==> r->Ok_0 + dim <= len,
        r is Ok && next is Ok ==> next->Ok_0 == r->Ok_0 + dim,
        r is Ok ==> (next is Ok <==> r->Ok_0 + 2 * dim <= len),
        next is Ok ==> r is Ok,
{
    assert((token + 1) * dim == token * dim + dim) by (nonlinear_arith);
    assert(0 * dim == 0) by (nonlinear_arith);
}

/// Going back to `n` tokens keeps the first `n` of each head's keys and values as they were, and a
/// cache that is no longer than that stays as it is.
pub proof fn going_back_keeps_the_front<T: Copy>(a: KvCache<T>, b: KvCache<T>, n: int, i: int)
    requires
        a.wf(),
        truncated(a, b, n),
        0 <= n,
    ensures
        b.heads() == a.heads() && b.dim() == a.dim(),
        n >= a.tokens() ==> b == a,
        0 <= i < n * a.width() && n < a.tokens() ==> b.keys()[i] == a.keys()[i] && b.values()[i]
            == a.values()[i],
        n < a.tokens() ==> b.keys().len() == n * a.width() && b.values().len() == n * a.width(),
{
    if n < a.tokens() {
        let (w, t) = (a.width(), a.tokens());
        assert(0 <= n * w <= t * w) by (nonlinear_arith)
            requires
                0 <= n < t,
                w >= 0,
        ;
    }
}

} // verus!
