//! Dense grids and structural validation of nested input.
//!
//! `pack` turns a three-level nested vector into a dense row-major `Grid`,
//! rejecting any input that is not strictly rectangular. `check_axes` checks
//! that a grid's shape matches the lengths of the three coordinate axes.
//! No numeric transformation happens here: packing preserves every element
//! and its row-major order exactly.

use vstd::prelude::*;

verus! {

use crate::index::{axis_i, axis_j, axis_l, flat_index, lemma_flat_index};

/// Structural errors detected before any field computation starts.
#[derive(Clone, Copy, Debug, PartialEq, Eq, Structural)]
pub enum GridError {
    /// Nested input rows have inconsistent lengths.
    ShapeMismatch,
    /// Grid shape does not match the coordinate-axis lengths.
    AxisShapeInconsistency,
}

/// Middle dimension implied by a nested input: the length of its first row.
pub open spec fn implied_n<T>(g: Seq<Vec<Vec<T>>>) -> nat {
    if g.len() > 0 {
        g[0]@.len()
    } else {
        0
    }
}

/// Inner dimension implied by a nested input: the length of its first
/// innermost row.
pub open spec fn implied_k<T>(g: Seq<Vec<Vec<T>>>) -> nat {
    if g.len() > 0 && g[0]@.len() > 0 {
        g[0]@[0]@.len()
    } else {
        0
    }
}

/// The nested input is strictly rectangular: every row has the implied
/// middle length and every innermost row has the implied inner length.
pub open spec fn rectangular<T>(g: Seq<Vec<Vec<T>>>) -> bool {
    &&& forall|i: int| 0 <= i < g.len() ==> (#[trigger] g[i])@.len() == implied_n(g)
    &&& forall|i: int, j: int|
        0 <= i < g.len() && 0 <= j < g[i]@.len() ==> (#[trigger] g[i]@[j])@.len() == implied_k(g)
}

/// A dense row-major 3-D grid of shape (m, n, k).
#[derive(Clone, Debug, PartialEq, Eq)]
pub struct Grid<T> {
    /// Flat row-major storage: cell (i, j, l) lives at (i * n + j) * k + l.
    pub data: Vec<T>,
    /// Outer dimension.
    pub m: usize,
    /// Middle dimension.
    pub n: usize,
    /// Inner dimension.
    pub k: usize,
}

impl<T> Grid<T> {
    /// The storage holds exactly one value per cell.
    pub open spec fn wf(self) -> bool {
        self.data@.len() == (self.m as nat) * (self.n as nat) * (self.k as nat)
    }

    /// The value stored for cell (i, j, l).
    pub open spec fn cell(self, i: int, j: int, l: int) -> T {
        self.data@[(i * (self.n as int) + j) * (self.k as int) + l]
    }
}

impl<T: Copy> Grid<T> {
    /// Read the value at cell (i, j, l).
    pub fn get(&self, i: usize, j: usize, l: usize) -> (r: T)
        requires
            self.wf(),
            i < self.m,
            j < self.n,
            l < self.k,
        ensures
            r == self.cell(i as int, j as int, l as int),
    {
        proof {
            lemma_flat_index(
                self.m as nat,
                self.n as nat,
                self.k as nat,
                i as nat,
                j as nat,
                l as nat,
            );
            vstd::std_specs::vec::axiom_spec_len(&self.data);
            assert(self.data@.len() <= usize::MAX);
            assert((i as int) * (self.n as int) + (j as int) <= ((i as int) * (self.n as int) + (
            j as int)) * (self.k as int) + (l as int)) by (nonlinear_arith)
                requires
                    l < self.k,
            ;
        }
        let t: usize = (i * self.n + j) * self.k + l;
        self.data[t]
    }
}

/// Validates and packs a nested input into a dense row-major grid.
///
/// Succeeds exactly on strictly rectangular input; the packed grid takes its
/// shape from the input and holds every element at its row-major position.
/// A non-rectangular input is rejected with `ShapeMismatch` before any value
/// is produced.
pub fn pack<T: Copy>(nested: Vec<Vec<Vec<T>>>) -> (r: Result<Grid<T>, GridError>)
    ensures
        r is Ok <==> rectangular(nested@),
        r is Err ==> r == Err::<Grid<T>, GridError>(GridError::ShapeMismatch),
        r matches Ok(g) ==> {
            &&& g.wf()
            &&& g.m == nested@.len()
            &&& g.n == implied_n(nested@)
            &&& g.k == implied_k(nested@)
            &&& forall|i: int, j: int, l: int|
                0 <= i < g.m && 0 <= j < g.n && 0 <= l < g.k ==> #[trigger] g.cell(i, j, l)
                    == nested@[i]@[j]@[l]
        },
{
    let m: usize = nested.len();
    let n: usize = if m > 0 {
        nested[0].len()
    } else {
        0
    };
    let k: usize = if m > 0 && n > 0 {
        nested[0][0].len()
    } else {
        0
    };
    let mut data: Vec<T> = Vec::new();
    let mut i: usize = 0;
    proof {
        assert((i as nat) * (n as nat) * (k as nat) == 0) by (nonlinear_arith)
            requires
                i == 0,
        ;
    }
    while i < m
        invariant
            m == nested@.len(),
            n == implied_n(nested@),
            k == implied_k(nested@),
            i <= m,
            data@.len() == (i as nat) * (n as nat) * (k as nat),
            forall|a: int| 0 <= a < i ==> (#[trigger] nested@[a])@.len() == n,
            forall|a: int, b: int|
                0 <= a < i && 0 <= b < n ==> (#[trigger] nested@[a]@[b])@.len() == k,
            forall|t: int|
                0 <= t < data@.len() ==> #[trigger] data@[t] == nested@[axis_i(
                    n as nat,
                    k as nat,
                    t as nat,
                ) as int]@[axis_j(n as nat, k as nat, t as nat) as int]@[axis_l(
                    k as nat,
                    t as nat,
                ) as int],
        decreases m - i,
    {
        if nested[i].len() != n {
            return Err(GridError::ShapeMismatch);
        }
        let mut j: usize = 0;
        proof {
            assert((j as nat) * (k as nat) == 0) by (nonlinear_arith)
                requires
                    j == 0,
            ;
        }
        while j < n
            invariant
                m == nested@.len(),
                n == implied_n(nested@),
                k == implied_k(nested@),
                i < m,
                j <= n,
                nested@[i as int]@.len() == n,
                data@.len() == (i as nat) * (n as nat) * (k as nat) + (j as nat) * (k as nat),
                forall|a: int| 0 <= a < i ==> (#[trigger] nested@[a])@.len() == n,
                forall|a: int, b: int|
                    0 <= a < i && 0 <= b < n ==> (#[trigger] nested@[a]@[b])@.len() == k,
                forall|b: int| 0 <= b < j ==> (#[trigger] nested@[i as int]@[b])@.len() == k,
                forall|t: int|
                    0 <= t < data@.len() ==> #[trigger] data@[t] == nested@[axis_i(
                        n as nat,
                        k as nat,
                        t as nat,
                    ) as int]@[axis_j(n as nat, k as nat, t as nat) as int]@[axis_l(
                        k as nat,
                        t as nat,
                    ) as int],
            decreases n - j,
        {
            if nested[i][j].len() != k {
                return Err(GridError::ShapeMismatch);
            }
            let mut l: usize = 0;
            while l < k
                invariant
                    m == nested@.len(),
                    n == implied_n(nested@),
                    k == implied_k(nested@),
                    i < m,
                    j < n,
                    l <= k,
                    nested@[i as int]@.len() == n,
                    nested@[i as int]@[j as int]@.len() == k,
                    data@.len() == (i as nat) * (n as nat) * (k as nat) + (j as nat) * (k as nat)
                        + l as nat,
                    forall|a: int| 0 <= a < i ==> (#[trigger] nested@[a])@.len() == n,
                    forall|a: int, b: int|
                        0 <= a < i && 0 <= b < n ==> (#[trigger] nested@[a]@[b])@.len() == k,
                    forall|b: int| 0 <= b < j ==> (#[trigger] nested@[i as int]@[b])@.len() == k,
                    forall|t: int|
                        0 <= t < data@.len() ==> #[trigger] data@[t] == nested@[axis_i(
                            n as nat,
                            k as nat,
                            t as nat,
                        ) as int]@[axis_j(n as nat, k as nat, t as nat) as int]@[axis_l(
                            k as nat,
                            t as nat,
                        ) as int],
                decreases k - l,
            {
                proof {
                    lemma_flat_index(m as nat, n as nat, k as nat, i as nat, j as nat, l as nat);
                    assert(data@.len() == flat_index(n as nat, k as nat, i as nat, j as nat, l as nat))
                        by (nonlinear_arith)
                        requires
                            data@.len() == (i as nat) * (n as nat) * (k as nat) + (j as nat) * (
                            k as nat) + l as nat,
                    ;
                }
                data.push(nested[i][j][l]);
                l += 1;
            }
            proof {
                assert(((j + 1) as nat) * (k as nat) == (j as nat) * (k as nat) + (k as nat))
                    by (nonlinear_arith);
            }
            j += 1;
        }
        proof {
            assert((i as nat) * (n as nat) * (k as nat) + (n as nat) * (k as nat) == ((i
                + 1) as nat) * (n as nat) * (k as nat)) by (nonlinear_arith);
        }
        i += 1;
    }
    let g = Grid { data, m, n, k };
    proof {
        assert(rectangular(nested@));
        assert(g.wf());
        assert forall|i2: int, j2: int, l2: int|
            0 <= i2 < g.m && 0 <= j2 < g.n && 0 <= l2 < g.k implies #[trigger] g.cell(i2, j2, l2)
            == nested@[i2]@[j2]@[l2] by {
            lemma_flat_index(m as nat, n as nat, k as nat, i2 as nat, j2 as nat, l2 as nat);
        }
    }
    Ok(g)
}

/// Checks that the three component grids of a vector field share one shape,
/// rejecting any disagreement with `ShapeMismatch`.
pub fn check_same_shape<T>(a: &Grid<T>, b: &Grid<T>, c: &Grid<T>) -> (r: Result<(), GridError>)
    ensures
        r is Ok <==> (a.m == b.m && a.n == b.n && a.k == b.k && a.m == c.m && a.n == c.n && a.k
            == c.k),
        r is Err ==> r == Err::<(), GridError>(GridError::ShapeMismatch),
{
    if a.m == b.m && a.n == b.n && a.k == b.k && a.m == c.m && a.n == c.n && a.k == c.k {
        Ok(())
    } else {
        Err(GridError::ShapeMismatch)
    }
}

/// Checks that a grid's shape matches the three coordinate-axis lengths,
/// rejecting any difference with `AxisShapeInconsistency`.
pub fn check_axes<T>(g: &Grid<T>, x_len: usize, y_len: usize, z_len: usize) -> (r: Result<
    (),
    GridError,
>)
    ensures
        r is Ok <==> (g.m == x_len && g.n == y_len && g.k == z_len),
        r is Err ==> r == Err::<(), GridError>(GridError::AxisShapeInconsistency),
{
    if g.m == x_len && g.n == y_len && g.k == z_len {
        Ok(())
    } else {
        Err(GridError::AxisShapeInconsistency)
    }
}

} // verus!
