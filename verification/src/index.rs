//! Row-major index arithmetic for a dense (m, n, k) grid.
//!
//! A grid cell (i, j, l) is stored at flat position `(i * n + j) * k + l`.
//! The lemmas here relate the flat position back to its axis components,
//! which is what pins down the enumeration order everywhere else.

use vstd::prelude::*;

verus! {

use vstd::arithmetic::div_mod::lemma_fundamental_div_mod_converse;

/// Flat row-major position of cell (i, j, l) in a grid with inner dimensions
/// n and k (the outer dimension m does not enter the formula).
pub open spec fn flat_index(n: nat, k: nat, i: nat, j: nat, l: nat) -> nat {
    (i * n + j) * k + l
}

/// Outer-axis component of flat position t.
pub open spec fn axis_i(n: nat, k: nat, t: nat) -> nat {
    t / (n * k)
}

/// Middle-axis component of flat position t.
pub open spec fn axis_j(n: nat, k: nat, t: nat) -> nat {
    (t / k) % n
}

/// Inner-axis component of flat position t.
pub open spec fn axis_l(k: nat, t: nat) -> nat {
    t % k
}

/// An in-range cell index maps to an in-range flat position, and the axis
/// components recover the cell index from the flat position.
pub proof fn lemma_flat_index(m: nat, n: nat, k: nat, i: nat, j: nat, l: nat)
    requires
        i < m,
        j < n,
        l < k,
    ensures
        flat_index(n, k, i, j, l) < m * n * k,
        axis_i(n, k, flat_index(n, k, i, j, l)) == i,
        axis_j(n, k, flat_index(n, k, i, j, l)) == j,
        axis_l(k, flat_index(n, k, i, j, l)) == l,
{
    let t = flat_index(n, k, i, j, l);
    assert(j * k + l < n * k) by (nonlinear_arith)
        requires
            j < n,
            l < k,
    ;
    assert(t == i * (n * k) + (j * k + l)) by (nonlinear_arith)
        requires
            t == (i * n + j) * k + l,
    ;
    assert(t < m * (n * k)) by (nonlinear_arith)
        requires
            i < m,
            t == i * (n * k) + (j * k + l),
            j * k + l < n * k,
    ;
    assert(m * (n * k) == m * n * k) by (nonlinear_arith);
    lemma_fundamental_div_mod_converse(t as int, (n * k) as int, i as int, (j * k + l) as int);
    lemma_fundamental_div_mod_converse(t as int, k as int, (i * n + j) as int, l as int);
    lemma_fundamental_div_mod_converse((i * n + j) as int, n as int, i as int, j as int);
}

/// Every flat position below m * n * k comes from exactly one in-range cell
/// index: the axis components are in range and map back to the position.
pub proof fn lemma_flat_index_inverse(m: nat, n: nat, k: nat, t: nat)
    requires
        t < m * n * k,
    ensures
        axis_i(n, k, t) < m,
        axis_j(n, k, t) < n,
        axis_l(k, t) < k,
        flat_index(n, k, axis_i(n, k, t), axis_j(n, k, t), axis_l(k, t)) == t,
{
    let nk = n * k;
    assert(m * n * k == m * nk) by (nonlinear_arith)
        requires
            nk == n * k,
    ;
    assert(nk > 0) by (nonlinear_arith)
        requires
            t < m * nk,
    ;
    assert(k > 0) by (nonlinear_arith)
        requires
            nk > 0,
            nk == n * k,
    ;
    let i = t / nk;
    let r = t % nk;
    vstd::arithmetic::div_mod::lemma_fundamental_div_mod(t as int, nk as int);
    vstd::arithmetic::div_mod::lemma_mod_bound(t as int, nk as int);
    assert(t == i * nk + r);
    assert(i < m) by (nonlinear_arith)
        requires
            t < m * nk,
            t == i * nk + r,
            0 <= r < nk,
            nk > 0,
    ;
    let j = r / k;
    let l = r % k;
    vstd::arithmetic::div_mod::lemma_fundamental_div_mod(r as int, k as int);
    vstd::arithmetic::div_mod::lemma_mod_bound(r as int, k as int);
    assert(r == j * k + l);
    assert(j < n) by (nonlinear_arith)
        requires
            r < n * k,
            r == j * k + l,
            0 <= l < k,
            k > 0,
    ;
    assert(t == (i * n + j) * k + l) by (nonlinear_arith)
        requires
            t == i * (n * k) + r,
            r == j * k + l,
    ;
    lemma_flat_index(m, n, k, i as nat, j as nat, l as nat);
    assert(axis_i(n, k, t) == i);
    assert(axis_j(n, k, t) == j) by {
        lemma_fundamental_div_mod_converse(t as int, k as int, (i * n + j) as int, l as int);
        lemma_fundamental_div_mod_converse((i * n + j) as int, n as int, i as int, j as int);
    }
    assert(axis_l(k, t) == l) by {
        lemma_fundamental_div_mod_converse(t as int, k as int, (i * n + j) as int, l as int);
    }
}

} // verus!
