//! The sizes and places that the model's arithmetic goes by.
use vstd::prelude::*;
use vstd::string::*;
use crate::error::{ErrorView, GgufError, GgufResult};
use crate::float::f32_nan;
use crate::tensor::{mul_saturating, saturated};
use crate::text::{dec, owned, push_dec};

verus! {

/// An operand of the wrong length.
pub open spec fn length_error(expected: u64, actual: u64) -> ErrorView {
    ErrorView::DequantError { dtype: "F32"@, expected, actual }
}

fn wrong_length(expected: u64, actual: u64) -> (e: GgufError)
    ensures
        e@ == length_error(expected, actual),
{
    GgufError::DequantError { dtype: owned("F32"), expected, actual }
}

/// Whether `a` numbers are too few for a matrix of `rows` times `cols`.
fn too_few(a: u64, rows: u64, cols: u64) -> (r: bool)
    ensures
        r == (a < rows as nat * cols as nat),
{
    match rows.checked_mul(cols) {
        Some(n) => a < n,
        None => true,
    }
}

/// Whether a matrix of `a` numbers with `out_dim` rows of `in_dim` numbers, a vector of `x` numbers
/// and a result of `y` numbers fit together.
pub open spec fn matvec_fits(a: u64, in_dim: u64, out_dim: u64, x: u64, y: u64) -> Result<
    (),
    ErrorView,
> {
    if a < in_dim as nat * out_dim as nat {
        Err(length_error(saturated(in_dim as nat * out_dim as nat), a))
    } else if x != in_dim {
        Err(length_error(in_dim, x))
    } else if y != out_dim {
        Err(length_error(out_dim, y))
    } else {
        Ok(())
    }
}

/// Compares the sizes of a product of a matrix with a vector.
pub fn check_matvec(a: u64, in_dim: u64, out_dim: u64, x: u64, y: u64) -> (r: GgufResult<()>)
    ensures
        match matvec_fits(a, in_dim, out_dim, x, y) {
            Ok(_) => r is Ok,
            Err(e) => r is Err && r->Err_0@ == e,
        },
{
    if too_few(a, in_dim, out_dim) {
        return Err(wrong_length(mul_saturating(in_dim, out_dim), a));
    }
    if x != in_dim {
        return Err(wrong_length(in_dim, x));
    }
    if y != out_dim {
        return Err(wrong_length(out_dim, y));
    }
    Ok(())
}

/// Whether matrices of `a`, `b` and `c` numbers fit in a product of `rows` times `inner` with
/// `inner` times `cols`.
pub open spec fn matmul_fits(a: u64, b: u64, c: u64, rows: u64, inner: u64, cols: u64) -> Result<
    (),
    ErrorView,
> {
    if a < rows as nat * inner as nat {
        Err(length_error(saturated(rows as nat * inner as nat), a))
    } else if b < inner as nat * cols as nat {
        Err(length_error(saturated(inner as nat * cols as nat), b))
    } else if c < rows as nat * cols as nat {
        Err(length_error(saturated(rows as nat * cols as nat), c))
    } else {
        Ok(())
    }
}

/// Compares the sizes of a product of two matrices.
pub fn check_matmul(a: u64, b: u64, c: u64, rows: u64, inner: u64, cols: u64) -> (r: GgufResult<()>)
    ensures
        match matmul_fits(a, b, c, rows, inner, cols) {
            Ok(_) => r is Ok,
            Err(e) => r is Err && r->Err_0@ == e,
        },
{
    if too_few(a, rows, inner) {
        return Err(wrong_length(mul_saturating(rows, inner), a));
    }
    if too_few(b, inner, cols) {
        return Err(wrong_length(mul_saturating(inner, cols), b));
    }
    if too_few(c, rows, cols) {
        return Err(wrong_length(mul_saturating(rows, cols), c));
    }
    Ok(())
}

/// In a product whose sizes were compared, row `i` of the matrix lies inside it.
pub proof fn rows_lie_inside(a: u64, in_dim: u64, out_dim: u64, x: u64, y: u64, i: int, j: int)
    requires
        matvec_fits(a, in_dim, out_dim, x, y) is Ok,
        0 <= i < y,
        0 <= j < x,
    ensures
        0 <= i * in_dim + j < a,
{
    assert(0 <= i * in_dim && i * in_dim + j < in_dim * out_dim) by (nonlinear_arith)
        requires
            0 <= i < out_dim,
            0 <= j < in_dim,
    ;
}

/// The key and value head that an attention head reads: neighbouring heads share one.
pub open spec fn kv_head_of(head: int, n_heads: int, n_kv_heads: int) -> int {
    head / (n_heads / n_kv_heads)
}

/// The key and value head that an attention head reads.
pub fn kv_head(head: usize, n_heads: usize, n_kv_heads: usize) -> (r: usize)
    requires
        0 < n_kv_heads <= n_heads,
    ensures
        r == kv_head_of(head as int, n_heads as int, n_kv_heads as int),
{
    assert(n_heads / n_kv_heads >= 1) by (nonlinear_arith)
        requires
            0 < n_kv_heads <= n_heads,
    ;
    head / (n_heads / n_kv_heads)
}

/// Where the heads divide evenly, every attention head reads a head that there is, and every such
/// head is read by as many attention heads as any other.
pub proof fn heads_are_shared_evenly(head: int, n_heads: int, n_kv_heads: int)
    requires
        0 < n_kv_heads,
        n_heads % n_kv_heads == 0,
        0 <= head < n_heads,
    ensures
        0 <= kv_head_of(head, n_heads, n_kv_heads) < n_kv_heads,
        ({
            let share = n_heads / n_kv_heads;
            let kv = kv_head_of(head, n_heads, n_kv_heads);
            kv * share <= head < (kv + 1) * share
        }),
{
    let share = n_heads / n_kv_heads;
    vstd::arithmetic::div_mod::lemma_fundamental_div_mod(n_heads, n_kv_heads);
    assert(share > 0) by (nonlinear_arith)
        requires
            n_heads == n_kv_heads * share,
            n_heads > 0,
            n_kv_heads > 0,
    ;
    vstd::arithmetic::div_mod::lemma_fundamental_div_mod(head, share);
    let kv = head / share;
    assert(kv * share <= head < (kv + 1) * share) by (nonlinear_arith)
        requires
            head == share * kv + head % share,
            0 <= head % share < share,
    ;
    assert(0 <= kv < n_kv_heads) by (nonlinear_arith)
        requires
            kv * share <= head < (kv + 1) * share,
            0 <= head < n_kv_heads * share,
            share > 0,
    ;
}

/// Whether a token at position `pos` sees the one in place `s`: those up to itself, and no later
/// one.
pub fn sees(s: usize, pos: i64) -> (r: bool)
    ensures
        r == (s as int <= pos as int),
{
    pos >= 0 && s as u64 <= pos as u64
}

/// Whether any of the numbers is a NaN.
pub open spec fn has_nan(values: Seq<u32>) -> bool {
    exists|i: int| 0 <= i < values.len() && f32_nan(#[trigger] values[i])
}

/// Refuses numbers of which one is a NaN; `stage` is the part of layer `layer` that they came from.
pub fn check_finite(values: &[u32], layer: usize, stage: &str) -> (r: GgufResult<()>)
    ensures
        has_nan(values@) ==> r is Err && r->Err_0@ == ErrorView::InferenceError(
            "NaN after layer "@ + dec(layer as nat) + " "@ + stage@,
        ),
        !has_nan(values@) ==> r is Ok,
{
    let mut i: usize = 0;
    while i < values.len()
        invariant
            i <= values@.len(),
            forall|k: int| 0 <= k < i ==> !f32_nan(#[trigger] values@[k]),
        decreases values@.len() - i,
    {
        let b: u32 = values[i];
        if (b / 0x80_0000) % 0x100 == 0xff && b % 0x80_0000 != 0 {
            assert(f32_nan(values@[i as int]));
            let mut m = owned("NaN after layer ");
            push_dec(&mut m, layer as u64);
            m.append(" ");
            m.append(stage);
            return Err(GgufError::InferenceError(m));
        }
        i += 1;
    }
    Ok(())
}

} // verus!
