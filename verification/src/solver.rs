//! Verified structure of the pairwise-summation engine.
//!
//! The field at every evaluation point is a sum over every source point, and
//! the result is reproducible only because both enumerations happen in one
//! fixed row-major order: outer axis first, middle axis second, inner axis
//! innermost. `source_order` pins that order down as a sequence;
//! `fold_in_order` runs an accumulation over the grid in exactly that order
//! and no other; `solve_cells` produces one output cell per evaluation point,
//! each written from its own grid index alone, so the output shape always
//! equals the grid shape and every slot has exactly one writer. The numeric
//! step itself is a caller-supplied closure, which is where the
//! floating-point cross product and inverse-cube distance live.

use vstd::prelude::*;

verus! {

use crate::index::{axis_i, axis_j, axis_l, flat_index, lemma_flat_index};

/// The sequence s enumerates the cells of an (m, n, k) grid in row-major
/// order: position t holds the cell whose flat row-major position is t.
pub open spec fn is_row_major_order(s: Seq<(usize, usize, usize)>, m: nat, n: nat, k: nat) -> bool {
    &&& s.len() == m * n * k
    &&& forall|t: int|
        0 <= t < s.len() ==> #[trigger] s[t] == (
            axis_i(n, k, t as nat) as usize,
            axis_j(n, k, t as nat) as usize,
            axis_l(k, t as nat) as usize,
        )
}

/// Law: the enumeration order over a grid is a function of the grid shape
/// alone. Any two sequences in row-major order for the same shape are equal,
/// so two runs over the same grid visit the cells identically.
pub proof fn lemma_row_major_order_unique(
    s1: Seq<(usize, usize, usize)>,
    s2: Seq<(usize, usize, usize)>,
    m: nat,
    n: nat,
    k: nat,
)
    requires
        is_row_major_order(s1, m, n, k),
        is_row_major_order(s2, m, n, k),
    ensures
        s1 == s2,
{
    assert(s1 =~= s2);
}

/// Enumerates every cell of an (m, n, k) grid in the fixed row-major order.
pub fn source_order(m: usize, n: usize, k: usize) -> (r: Vec<(usize, usize, usize)>)
    ensures
        is_row_major_order(r@, m as nat, n as nat, k as nat),
{
    let mut r: Vec<(usize, usize, usize)> = Vec::new();
    let mut i: usize = 0;
    proof {
        assert((i as nat) * (n as nat) * (k as nat) == 0) by (nonlinear_arith)
            requires
                i == 0,
        ;
    }
    while i < m
        invariant
            i <= m,
            r@.len() == (i as nat) * (n as nat) * (k as nat),
            forall|t: int|
                0 <= t < r@.len() ==> #[trigger] r@[t] == (
                    axis_i(n as nat, k as nat, t as nat) as usize,
                    axis_j(n as nat, k as nat, t as nat) as usize,
                    axis_l(k as nat, t as nat) as usize,
                ),
        decreases m - i,
    {
        let mut j: usize = 0;
        proof {
            assert((j as nat) * (k as nat) == 0) by (nonlinear_arith)
                requires
                    j == 0,
            ;
        }
        while j < n
            invariant
                i < m,
                j <= n,
                r@.len() == (i as nat) * (n as nat) * (k as nat) + (j as nat) * (k as nat),
                forall|t: int|
                    0 <= t < r@.len() ==> #[trigger] r@[t] == (
                        axis_i(n as nat, k as nat, t as nat) as usize,
                        axis_j(n as nat, k as nat, t as nat) as usize,
                        axis_l(k as nat, t as nat) as usize,
                    ),
            decreases n - j,
        {
            let mut l: usize = 0;
            while l < k
                invariant
                    i < m,
                    j < n,
                    l <= k,
                    r@.len() == (i as nat) * (n as nat) * (k as nat) + (j as nat) * (k as nat)
                        + l as nat,
                    forall|t: int|
                        0 <= t < r@.len() ==> #[trigger] r@[t] == (
                            axis_i(n as nat, k as nat, t as nat) as usize,
                            axis_j(n as nat, k as nat, t as nat) as usize,
                            axis_l(k as nat, t as nat) as usize,
                        ),
                decreases k - l,
            {
                proof {
                    lemma_flat_index(m as nat, n as nat, k as nat, i as nat, j as nat, l as nat);
                    assert(r@.len() == flat_index(n as nat, k as nat, i as nat, j as nat, l as nat))
                        by (nonlinear_arith)
                        requires
                            r@.len() == (i as nat) * (n as nat) * (k as nat) + (j as nat) * (
                            k as nat) + l as nat,
                    ;
                }
                r.push((i, j, l));
                l += 1;
            }
            proof {
                assert(((j + 1) as nat) * (k as nat) == (j as nat) * (k as nat) + (k as nat))
                    by (nonlinear_arith);
            }
            j += 1;
        }
        proof {
            assert(((i + 1) as nat) * (n as nat) * (k as nat) == (i as nat) * (n as nat) * (k as nat)
                + (n as nat) * (k as nat)) by (nonlinear_arith);
        }
        i += 1;
    }
    r
}

/// Computes one output value per cell of an (m, n, k) grid: the cell at flat
/// row-major position t of the result comes from the per-cell computation
/// applied to that cell's own index and to nothing else.
///
/// This is the parallel skeleton of the solver: each output slot depends only
/// on its own evaluation index, so slots may be computed by independent tasks
/// with no synchronization, and the output length always equals the number of
/// grid cells.
pub fn solve_cells<T, F: Fn(usize, usize, usize) -> T>(m: usize, n: usize, k: usize, f: F) -> (r:
    Vec<T>)
    requires
        forall|i: usize, j: usize, l: usize|
            i < m && j < n && l < k ==> call_requires(f, (i, j, l)),
    ensures
        r@.len() == (m as nat) * (n as nat) * (k as nat),
        forall|t: int|
            0 <= t < r@.len() ==> call_ensures(
                f,
                (
                    axis_i(n as nat, k as nat, t as nat) as usize,
                    axis_j(n as nat, k as nat, t as nat) as usize,
                    axis_l(k as nat, t as nat) as usize,
                ),
                #[trigger] r@[t],
            ),
{
    let mut r: Vec<T> = Vec::new();
    let mut i: usize = 0;
    proof {
        assert((i as nat) * (n as nat) * (k as nat) == 0) by (nonlinear_arith)
            requires
                i == 0,
        ;
    }
    while i < m
        invariant
            i <= m,
            forall|a: usize, b: usize, c: usize|
                a < m && b < n && c < k ==> call_requires(f, (a, b, c)),
            r@.len() == (i as nat) * (n as nat) * (k as nat),
            forall|t: int|
                0 <= t < r@.len() ==> call_ensures(
                    f,
                    (
                        axis_i(n as nat, k as nat, t as nat) as usize,
                        axis_j(n as nat, k as nat, t as nat) as usize,
                        axis_l(k as nat, t as nat) as usize,
                    ),
                    #[trigger] r@[t],
                ),
        decreases m - i,
    {
        let mut j: usize = 0;
        proof {
            assert((j as nat) * (k as nat) == 0) by (nonlinear_arith)
                requires
                    j == 0,
            ;
        }
        while j < n
            invariant
                i < m,
                j <= n,
                forall|a: usize, b: usize, c: usize|
                    a < m && b < n && c < k ==> call_requires(f, (a, b, c)),
                r@.len() == (i as nat) * (n as nat) * (k as nat) + (j as nat) * (k as nat),
                forall|t: int|
                    0 <= t < r@.len() ==> call_ensures(
                        f,
                        (
                            axis_i(n as nat, k as nat, t as nat) as usize,
                            axis_j(n as nat, k as nat, t as nat) as usize,
                            axis_l(k as nat, t as nat) as usize,
                        ),
                        #[trigger] r@[t],
                    ),
            decreases n - j,
        {
            let mut l: usize = 0;
            while l < k
                invariant
                    i < m,
                    j < n,
                    l <= k,
                    forall|a: usize, b: usize, c: usize|
                        a < m && b < n && c < k ==> call_requires(f, (a, b, c)),
                    r@.len() == (i as nat) * (n as nat) * (k as nat) + (j as nat) * (k as nat)
                        + l as nat,
                    forall|t: int|
                        0 <= t < r@.len() ==> call_ensures(
                            f,
                            (
                                axis_i(n as nat, k as nat, t as nat) as usize,
                                axis_j(n as nat, k as nat, t as nat) as usize,
                                axis_l(k as nat, t as nat) as usize,
                            ),
                            #[trigger] r@[t],
                        ),
                decreases k - l,
            {
                proof {
                    lemma_flat_index(m as nat, n as nat, k as nat, i as nat, j as nat, l as nat);
                    assert(r@.len() == flat_index(n as nat, k as nat, i as nat, j as nat, l as nat))
                        by (nonlinear_arith)
                        requires
                            r@.len() == (i as nat) * (n as nat) * (k as nat) + (j as nat) * (
                            k as nat) + l as nat,
                    ;
                }
                let cell = f(i, j, l);
                r.push(cell);
                l += 1;
            }
            proof {
                assert(((j + 1) as nat) * (k as nat) == (j as nat) * (k as nat) + (k as nat))
                    by (nonlinear_arith);
            }
            j += 1;
        }
        proof {
            assert(((i + 1) as nat) * (n as nat) * (k as nat) == (i as nat) * (n as nat) * (k as nat)
                + (n as nat) * (k as nat)) by (nonlinear_arith);
        }
        i += 1;
    }
    r
}

/// One valid accumulation chain for a fold over an (m, n, k) grid: element 0
/// is the initial accumulator, element t + 1 is a possible result of applying
/// the step to element t and the cell at flat row-major position t, and r is
/// the last element.
pub open spec fn is_fold_chain<T, F: Fn(T, usize, usize, usize) -> T>(
    f: F,
    m: nat,
    n: nat,
    k: nat,
    init: T,
    chain: Seq<T>,
    r: T,
) -> bool {
    &&& chain.len() == m * n * k + 1
    &&& chain[0] == init
    &&& r == chain[(m * n * k) as int]
    &&& forall|t: int|
        0 <= t < m * n * k ==> call_ensures(
            f,
            (
                #[trigger] chain[t],
                axis_i(n, k, t as nat) as usize,
                axis_j(n, k, t as nat) as usize,
                axis_l(k, t as nat) as usize,
            ),
            chain[t + 1],
        )
}

/// Two accumulation chains of the same deterministic step agree up to any
/// position.
proof fn lemma_fold_chain_agree<T, F: Fn(T, usize, usize, usize) -> T>(
    f: F,
    m: nat,
    n: nat,
    k: nat,
    init: T,
    chain1: Seq<T>,
    chain2: Seq<T>,
    r1: T,
    r2: T,
    t: int,
)
    requires
        is_fold_chain(f, m, n, k, init, chain1, r1),
        is_fold_chain(f, m, n, k, init, chain2, r2),
        forall|a: T, i: usize, j: usize, l: usize, b1: T, b2: T|
            call_ensures(f, (a, i, j, l), b1) && call_ensures(f, (a, i, j, l), b2) ==> b1 == b2,
        0 <= t < chain1.len(),
    ensures
        chain1[t] == chain2[t],
    decreases t,
{
    if t > 0 {
        lemma_fold_chain_agree(f, m, n, k, init, chain1, chain2, r1, r2, t - 1);
    }
}

/// Law: the accumulation order is fixed, so a deterministic step makes the
/// whole fold deterministic. Any two accumulation chains of the same step
/// over the same grid from the same initial accumulator are identical and
/// end in the same result — which is why two invocations of the solver on
/// identical inputs produce identical output, however the evaluation points
/// are scheduled.
pub proof fn lemma_fold_deterministic<T, F: Fn(T, usize, usize, usize) -> T>(
    f: F,
    m: nat,
    n: nat,
    k: nat,
    init: T,
    chain1: Seq<T>,
    chain2: Seq<T>,
    r1: T,
    r2: T,
)
    requires
        is_fold_chain(f, m, n, k, init, chain1, r1),
        is_fold_chain(f, m, n, k, init, chain2, r2),
        forall|a: T, i: usize, j: usize, l: usize, b1: T, b2: T|
            call_ensures(f, (a, i, j, l), b1) && call_ensures(f, (a, i, j, l), b2) ==> b1 == b2,
    ensures
        r1 == r2,
        chain1 == chain2,
{
    assert forall|t: int| 0 <= t < chain1.len() implies chain1[t] == chain2[t] by {
        lemma_fold_chain_agree(f, m, n, k, init, chain1, chain2, r1, r2, t);
    }
    assert(chain1 =~= chain2);
}

/// Splits a vector of per-cell component triples into the three flat
/// component vectors, preserving length and order.
pub fn split_components<T: Copy>(cells: &Vec<(T, T, T)>) -> (r: (Vec<T>, Vec<T>, Vec<T>))
    ensures
        r.0@.len() == cells@.len(),
        r.1@.len() == cells@.len(),
        r.2@.len() == cells@.len(),
        forall|t: int|
            0 <= t < cells@.len() ==> #[trigger] r.0@[t] == cells@[t].0 && r.1@[t] == cells@[t].1
                && r.2@[t] == cells@[t].2,
{
    let mut c0: Vec<T> = Vec::new();
    let mut c1: Vec<T> = Vec::new();
    let mut c2: Vec<T> = Vec::new();
    let mut t: usize = 0;
    while t < cells.len()
        invariant
            t <= cells@.len(),
            c0@.len() == t,
            c1@.len() == t,
            c2@.len() == t,
            forall|u: int|
                0 <= u < t ==> #[trigger] c0@[u] == cells@[u].0 && c1@[u] == cells@[u].1 && c2@[u]
                    == cells@[u].2,
        decreases cells@.len() - t,
    {
        let cell = cells[t];
        c0.push(cell.0);
        c1.push(cell.1);
        c2.push(cell.2);
        t += 1;
    }
    (c0, c1, c2)
}

/// Folds the step function over every cell of an (m, n, k) grid in the fixed
/// row-major order — and in no other order. The result is witnessed by an
/// accumulation chain that applies the step once per cell, partial sums
/// accumulating in exactly that order; since floating-point addition is not
/// associative, this is what makes the accumulated field reproducible.
pub fn fold_in_order<T, F: Fn(T, usize, usize, usize) -> T>(
    m: usize,
    n: usize,
    k: usize,
    init: T,
    f: F,
) -> (r: T)
    requires
        forall|a: T, i: usize, j: usize, l: usize|
            i < m && j < n && l < k ==> call_requires(f, (a, i, j, l)),
    ensures
        exists|chain: Seq<T>|
            is_fold_chain(f, m as nat, n as nat, k as nat, init, chain, r),
{
    let ghost init0: T = init;
    let ghost mut chain: Seq<T> = seq![init0];
    let mut acc: T = init;
    let mut i: usize = 0;
    proof {
        assert((i as nat) * (n as nat) * (k as nat) == 0) by (nonlinear_arith)
            requires
                i == 0,
        ;
    }
    while i < m
        invariant
            i <= m,
            forall|a: T, b: usize, c: usize, d: usize|
                b < m && c < n && d < k ==> call_requires(f, (a, b, c, d)),
            chain.len() == (i as nat) * (n as nat) * (k as nat) + 1,
            chain[0] == init0,
            acc == chain.last(),
            forall|t: int|
                0 <= t && t + 1 < chain.len() ==> call_ensures(
                    f,
                    (
                        #[trigger] chain[t],
                        axis_i(n as nat, k as nat, t as nat) as usize,
                        axis_j(n as nat, k as nat, t as nat) as usize,
                        axis_l(k as nat, t as nat) as usize,
                    ),
                    chain[t + 1],
                ),
        decreases m - i,
    {
        let mut j: usize = 0;
        proof {
            assert((j as nat) * (k as nat) == 0) by (nonlinear_arith)
                requires
                    j == 0,
            ;
        }
        while j < n
            invariant
                i < m,
                j <= n,
                forall|a: T, b: usize, c: usize, d: usize|
                    b < m && c < n && d < k ==> call_requires(f, (a, b, c, d)),
                chain.len() == (i as nat) * (n as nat) * (k as nat) + (j as nat) * (k as nat)
                    + 1,
                chain[0] == init0,
                acc == chain.last(),
                forall|t: int|
                    0 <= t && t + 1 < chain.len() ==> call_ensures(
                        f,
                        (
                            #[trigger] chain[t],
                            axis_i(n as nat, k as nat, t as nat) as usize,
                            axis_j(n as nat, k as nat, t as nat) as usize,
                            axis_l(k as nat, t as nat) as usize,
                        ),
                        chain[t + 1],
                    ),
            decreases n - j,
        {
            let mut l: usize = 0;
            while l < k
                invariant
                    i < m,
                    j < n,
                    l <= k,
                    forall|a: T, b: usize, c: usize, d: usize|
                        b < m && c < n && d < k ==> call_requires(f, (a, b, c, d)),
                    chain.len() == (i as nat) * (n as nat) * (k as nat) + (j as nat) * (k as nat)
                        + l as nat + 1,
                    chain[0] == init0,
                    acc == chain.last(),
                    forall|t: int|
                        0 <= t && t + 1 < chain.len() ==> call_ensures(
                            f,
                            (
                                #[trigger] chain[t],
                                axis_i(n as nat, k as nat, t as nat) as usize,
                                axis_j(n as nat, k as nat, t as nat) as usize,
                                axis_l(k as nat, t as nat) as usize,
                            ),
                            chain[t + 1],
                        ),
                decreases k - l,
            {
                proof {
                    lemma_flat_index(m as nat, n as nat, k as nat, i as nat, j as nat, l as nat);
                    assert(chain.len() - 1 == flat_index(
                        n as nat,
                        k as nat,
                        i as nat,
                        j as nat,
                        l as nat,
                    )) by (nonlinear_arith)
                        requires
                            chain.len() == (i as nat) * (n as nat) * (k as nat) + (j as nat) * (
                            k as nat) + l as nat + 1,
                    ;
                }
                let ghost prev: T = acc;
                acc = f(acc, i, j, l);
                proof {
                    assert(call_ensures(f, (prev, i, j, l), acc));
                    chain = chain.push(acc);
                }
                l += 1;
            }
            proof {
                assert(((j + 1) as nat) * (k as nat) == (j as nat) * (k as nat) + (k as nat))
                    by (nonlinear_arith);
            }
            j += 1;
        }
        proof {
            assert(((i + 1) as nat) * (n as nat) * (k as nat) == (i as nat) * (n as nat) * (k as nat)
                + (n as nat) * (k as nat)) by (nonlinear_arith);
        }
        i += 1;
    }
    proof {
        assert(is_fold_chain(f, m as nat, n as nat, k as nat, init0, chain, acc));
    }
    acc
}

} // verus!
