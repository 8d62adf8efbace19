//! Totals over the window: what a rule moves between cells, it neither makes nor loses.
use vstd::prelude::*;
use crate::geom::IVec2;
use crate::grid::GridModel;

verus! {

/// `f(0) + f(1) + ... + f(n - 1)`.
pub open spec fn sum_upto(f: spec_fn(int) -> int, n: int) -> int
    decreases n,
{
    if n <= 0 {
        0
    } else {
        sum_upto(f, n - 1) + f(n - 1)
    }
}

/// How many of `f(0), ..., f(n - 1)` are not zero.
pub open spec fn nonzero_upto(f: spec_fn(int) -> int, n: int) -> nat
    decreases n,
{
    if n <= 0 {
        0
    } else {
        nonzero_upto(f, n - 1) + if f(n - 1) != 0 {
            1nat
        } else {
            0nat
        }
    }
}

/// `f` with its value at `i` set to zero.
pub open spec fn zeroed(f: spec_fn(int) -> int, i: int) -> spec_fn(int) -> int {
    |k: int| if k == i { 0 } else { f(k) }
}

proof fn lemma_sum_zeroed(f: spec_fn(int) -> int, n: int, i: int)
    requires
        0 <= i < n,
    ensures
        sum_upto(zeroed(f, i), n) == sum_upto(f, n) - f(i),
        f(i) != 0 ==> nonzero_upto(zeroed(f, i), n) + 1 == nonzero_upto(f, n),
    decreases n,
{
    if n - 1 > i {
        lemma_sum_zeroed(f, n - 1, i);
    } else {
        lemma_sum_unchanged(f, zeroed(f, i), n - 1);
    }
}

pub proof fn lemma_sum_unchanged(f: spec_fn(int) -> int, g: spec_fn(int) -> int, n: int)
    requires
        forall|k: int| 0 <= k < n ==> #[trigger] f(k) == g(k),
    ensures
        sum_upto(f, n) == sum_upto(g, n),
        nonzero_upto(f, n) == nonzero_upto(g, n),
    decreases n,
{
    if n > 0 {
        lemma_sum_unchanged(f, g, n - 1);
    }
}

proof fn lemma_sum_of_zeros(f: spec_fn(int) -> int, n: int)
    requires
        forall|k: int| 0 <= k < n ==> #[trigger] f(k) == 0,
    ensures
        sum_upto(f, n) == 0,
    decreases n,
{
    if n > 0 {
        lemma_sum_of_zeros(f, n - 1);
    }
}

/// A sum splits over a sum and difference of terms.
pub proof fn lemma_sum_linear(a: spec_fn(int) -> int, b: spec_fn(int) -> int, c: spec_fn(int) -> int, n: int)
    ensures
        sum_upto(|k: int| a(k) + b(k) - c(k), n) == sum_upto(a, n) + sum_upto(b, n) - sum_upto(c, n),
    decreases n,
{
    if n > 0 {
        lemma_sum_linear(a, b, c, n - 1);
    }
}

/// When the non-zero values of `f` and of `g` pair up one to one, through `sigma` one way and
/// `tau` the other, with equal values, the two have the same sum.
pub proof fn lemma_paired_sums(
    f: spec_fn(int) -> int,
    g: spec_fn(int) -> int,
    sigma: spec_fn(int) -> int,
    tau: spec_fn(int) -> int,
    n: int,
)
    requires
        forall|i: int|
            0 <= i < n && #[trigger] f(i) != 0 ==> 0 <= sigma(i) < n && g(sigma(i)) == f(i) && tau(sigma(i)) == i,
        forall|j: int|
            0 <= j < n && #[trigger] g(j) != 0 ==> 0 <= tau(j) < n && f(tau(j)) == g(j) && sigma(tau(j)) == j,
    ensures
        sum_upto(f, n) == sum_upto(g, n),
    decreases nonzero_upto(f, n),
{
    if exists|i: int| 0 <= i < n && #[trigger] f(i) != 0 {
        let i = choose|i: int| 0 <= i < n && #[trigger] f(i) != 0;
        let j = sigma(i);
        let f2 = zeroed(f, i);
        let g2 = zeroed(g, j);
        lemma_sum_zeroed(f, n, i);
        lemma_sum_zeroed(g, n, j);
        assert forall|a: int| 0 <= a < n && #[trigger] f2(a) != 0 implies 0 <= sigma(a) < n && g2(sigma(a)) == f2(a)
            && tau(sigma(a)) == a by {
            assert(f(a) != 0);
            if sigma(a) == j {
                assert(tau(sigma(a)) == a);
            }
        }
        assert forall|b: int| 0 <= b < n && #[trigger] g2(b) != 0 implies 0 <= tau(b) < n && f2(tau(b)) == g2(b)
            && sigma(tau(b)) == b by {
            assert(g(b) != 0);
            if tau(b) == i {
                assert(sigma(tau(b)) == b);
            }
        }
        lemma_paired_sums(f2, g2, sigma, tau, n);
    } else {
        assert forall|b: int| 0 <= b < n implies #[trigger] g(b) == 0 by {
            if g(b) != 0 {
                assert(f(tau(b)) != 0);
            }
        }
        lemma_sum_of_zeros(f, n);
        lemma_sum_of_zeros(g, n);
    }
}

/// The window's slots and its positions match one to one: the slot of a position in the window
/// lies in the buffer, and only that position lands on it.
pub proof fn lemma_window_slots_distinct(v: GridModel, p: IVec2, q: IVec2)
    requires
        v.wf(),
        v.in_window(p),
        v.in_window(q),
        v.index_of(p) == v.index_of(q),
    ensures
        p == q,
{
    reveal(GridModel::index_xy);
    let w = v.width;
    let h = v.height;
    let ax = p.x - v.origin.x + v.head.x;
    let bx = q.x - v.origin.x + v.head.x;
    let ay = p.y - v.origin.y + v.head.y;
    let by = q.y - v.origin.y + v.head.y;
    vstd::arithmetic::div_mod::lemma_mod_bound(ax, w);
    vstd::arithmetic::div_mod::lemma_mod_bound(bx, w);
    vstd::arithmetic::div_mod::lemma_mod_bound(ay, h);
    vstd::arithmetic::div_mod::lemma_mod_bound(by, h);
    crate::grid::lemma_index_injective(ay % h, ax % w, by % h, bx % w, w);
    if ax < bx {
        crate::grid::lemma_mod_distinct(ax, bx, w);
    } else if bx < ax {
        crate::grid::lemma_mod_distinct(bx, ax, w);
    }
    if ay < by {
        crate::grid::lemma_mod_distinct(ay, by, h);
    } else if by < ay {
        crate::grid::lemma_mod_distinct(by, ay, h);
    }
}

} // verus!
