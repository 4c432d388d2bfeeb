//! Pixel rectangles and widget handles, with the arithmetic facts that keep
//! cell geometry inside `i32`.

use vstd::prelude::*;
use vstd::arithmetic::div_mod::lemma_fundamental_div_mod;
use vstd::arithmetic::mul::lemma_mul_inequality;

verus! {

/// An axis-aligned pixel rectangle: position and size.
#[derive(Clone, Copy, Debug, PartialEq, Eq, Structural)]
pub struct Rect {
    pub x: i32,
    pub y: i32,
    pub w: i32,
    pub h: i32,
}

/// A handle to a widget owned by the host user interface: an identity that
/// the host chooses, and the bounds last applied to the widget.
#[derive(Clone, Copy, Debug, PartialEq, Eq, Structural)]
pub struct Widget {
    pub id: u64,
    pub rect: Rect,
}

/// The quotient `w / n` of a nonnegative width by a positive count is
/// nonnegative and no larger than `w`, and any multiple of it by a factor
/// below `n` stays within `w`.
pub proof fn lemma_cell_offset_in_width(w: int, n: int, c: int)
    requires
        0 <= w,
        0 < n,
        0 <= c < n,
    ensures
        0 <= w / n,
        0 <= c * (w / n),
        c * (w / n) <= w,
{
    let q = w / n;
    lemma_fundamental_div_mod(w, n);
    assert(w == n * q + w % n);
    assert(0 <= w % n < n);
    assert(q >= 0) by (nonlinear_arith)
        requires
            w == n * q + w % n,
            0 <= w % n < n,
            0 <= w,
            0 < n,
    ;
    assert(0 <= c * q) by (nonlinear_arith)
        requires
            0 <= c,
            0 <= q,
    ;
    lemma_mul_inequality(c, n - 1, q);
    assert((n - 1) * q == n * q - q) by (nonlinear_arith);
    assert(c * q <= n * q - q);
    assert(n * q <= w);
}

} // verus!
