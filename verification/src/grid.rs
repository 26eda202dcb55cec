//! Tables over a rectangle of cells, row after row.
use vstd::arithmetic::div_mod::lemma_fundamental_div_mod_converse;
use vstd::prelude::*;

verus! {

/// The table of `f` over `w` by `h` cells.
pub open spec fn grid<A>(w: int, h: int, f: spec_fn(int, int) -> A) -> Seq<A> {
    Seq::new((w * h) as nat, |k: int| f(k % w, k / w))
}

/// A table has the value of `f` at every cell.
pub proof fn lemma_grid_at<A>(w: int, h: int, f: spec_fn(int, int) -> A, x: int, y: int)
    requires
        0 <= x < w,
        0 <= y < h,
    ensures
        0 <= y * w + x < w * h,
        grid(w, h, f).len() == w * h,
        grid(w, h, f)[y * w + x] == f(x, y),
{
    let k = y * w + x;
    assert(0 <= k < w * h) by (nonlinear_arith)
        requires
            k == y * w + x,
            0 <= x < w,
            0 <= y < h,
    ;
    lemma_fundamental_div_mod_converse(k, w, y, x);
}

/// Walking a table: the cell at position `k` of row `y` and column `x`.
pub proof fn lemma_walk(k: int, w: int, x: int, y: int)
    requires
        0 <= x < w,
        k == y * w + x,
    ensures
        k % w == x,
        k / w == y,
        y * w + w == (y + 1) * w,
{
    lemma_fundamental_div_mod_converse(k, w, y, x);
    assert(y * w + w == (y + 1) * w) by (nonlinear_arith);
}

} // verus!
