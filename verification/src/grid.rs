//! Index arithmetic on the periodic voxel grid.
//!
//! A density is sampled on an `x` by `y` by `z` grid over the unit cell.
//! Voxels are addressed by a flat index in row-major order with the last
//! coordinate running fastest.  Neighbour lookups wrap around the cell in
//! every direction, so each voxel has a well-defined neighbour for every
//! Voronoi lattice shift.

use vstd::arithmetic::div_mod::lemma_div_denominator;
use vstd::arithmetic::div_mod::lemma_fundamental_div_mod;
use vstd::arithmetic::div_mod::lemma_mod_add_multiples_vanish;
use vstd::arithmetic::div_mod::lemma_mod_division_less_than_divisor;
use vstd::arithmetic::div_mod::lemma_mod_self_0;
use vstd::arithmetic::div_mod::lemma_multiply_divide_lt;
use vstd::arithmetic::div_mod::lemma_small_mod;
use vstd::prelude::*;

verus! {

/// The dimensions of a periodic voxel grid.
pub struct Grid {
    /// Number of voxels along the first axis (slowest index).
    pub x: usize,
    /// Number of voxels along the second axis.
    pub y: usize,
    /// Number of voxels along the third axis (fastest index).
    pub z: usize,
}

impl Grid {
    /// A usable grid has at least one voxel along each axis and a voxel
    /// count that fits in `usize`.
    pub open spec fn wf(&self) -> bool {
        &&& 1 <= self.x
        &&& 1 <= self.y
        &&& 1 <= self.z
        &&& self.x * self.y * self.z <= usize::MAX
    }

    /// Number of voxels in the grid.
    pub open spec fn spec_total(&self) -> int {
        self.x * self.y * self.z
    }

    /// Flat index of the voxel at coordinates `(i, j, k)`.
    pub open spec fn flat_index(&self, i: int, j: int, k: int) -> int {
        (i * self.y + j) * self.z + k
    }

    /// Coordinates of the voxel with flat index `p`.
    pub open spec fn coords(&self, p: int) -> (int, int, int) {
        (p / (self.y * self.z), (p / (self.z as int)) % (self.y as int), p % (self.z as int))
    }

    /// A coordinate triple lies inside the grid.
    pub open spec fn in_bounds(&self, i: int, j: int, k: int) -> bool {
        &&& 0 <= i < self.x
        &&& 0 <= j < self.y
        &&& 0 <= k < self.z
    }

    pub fn new(x: usize, y: usize, z: usize) -> (g: Option<Grid>)
        ensures
            g is Some <==> 1 <= x && 1 <= y && 1 <= z && x * y * z <= usize::MAX,
            g matches Some(g) ==> g.x == x && g.y == y && g.z == z && g.wf(),
    {
        if x == 0 || y == 0 || z == 0 {
            return None;
        }
        proof {
            assert(x * y <= x * y * z) by (nonlinear_arith)
                requires
                    1 <= x,
                    1 <= y,
                    1 <= z,
            ;
        }
        match x.checked_mul(y) {
            Some(xy) => match xy.checked_mul(z) {
                Some(_) => Some(Grid { x, y, z }),
                None => None,
            },
            None => None,
        }
    }

    /// Number of voxels in the grid.
    pub fn total(&self) -> (t: usize)
        requires
            self.wf(),
        ensures
            t == self.spec_total(),
    {
        proof {
            assert(self.x * self.y <= self.x * self.y * self.z) by (nonlinear_arith)
                requires
                    1 <= self.x,
                    1 <= self.y,
                    1 <= self.z,
            ;
        }
        self.x * self.y * self.z
    }

    /// Decompose a flat index into grid coordinates.
    pub fn to_coords(&self, p: usize) -> (c: (usize, usize, usize))
        requires
            self.wf(),
            p < self.spec_total(),
        ensures
            (c.0 as int, c.1 as int, c.2 as int) == self.coords(p as int),
            self.in_bounds(c.0 as int, c.1 as int, c.2 as int),
            self.flat_index(c.0 as int, c.1 as int, c.2 as int) == p as int,
    {
        let k: usize = p % self.z;
        let pz: usize = p / self.z;
        let j: usize = pz % self.y;
        let i: usize = pz / self.y;
        proof {
            let px = p as int;
            let xi = self.x as int;
            let yi = self.y as int;
            let zi = self.z as int;
            lemma_mod_division_less_than_divisor(px, zi);
            lemma_mod_division_less_than_divisor(px / zi, yi);
            lemma_div_denominator(px, zi, yi);
            assert(zi * yi == yi * zi && xi * yi * zi == (yi * zi) * xi) by (nonlinear_arith);
            lemma_multiply_divide_lt(px, yi * zi, xi);
            // Recompose: (i * y + j) * z + k == (p / z) * z + p % z == p.
            lemma_fundamental_div_mod(px / zi, yi);
            assert(px / zi == yi * (px / zi / yi) + (px / zi) % yi);
            assert(((px / zi / yi) * yi + (px / zi) % yi) * zi == (px / zi) * zi);
            lemma_fundamental_div_mod(px, zi);
        }
        (i, j, k)
    }

    /// Flat index of the voxel at in-bounds coordinates `(i, j, k)`.
    pub fn to_index(&self, i: usize, j: usize, k: usize) -> (p: usize)
        requires
            self.wf(),
            self.in_bounds(i as int, j as int, k as int),
        ensures
            p == self.flat_index(i as int, j as int, k as int),
            p < self.spec_total(),
    {
        proof {
            assert(self.x * self.y <= self.x * self.y * self.z) by (nonlinear_arith)
                requires
                    1 <= self.x,
                    1 <= self.y,
                    1 <= self.z,
            ;
            assert(i * (self.y as int) + j < self.x * self.y) by (nonlinear_arith)
                requires
                    0 <= i < self.x,
                    0 <= j < self.y,
            ;
            assert((i * (self.y as int) + j) * self.z + k < self.x * self.y * self.z)
                by (nonlinear_arith)
                requires
                    0 <= i < self.x,
                    0 <= j < self.y,
                    0 <= k < self.z,
            ;
        }
        (i * self.y + j) * self.z + k
    }

    /// Move an in-range coordinate one step (or zero steps) along an axis
    /// of length `n`, wrapping around the periodic boundary.  The result
    /// is the Euclidean remainder of `c + d` modulo `n`.
    pub fn wrap_coord(c: usize, d: isize, n: usize) -> (r: usize)
        requires
            1 <= n,
            c < n,
            -1 <= d <= 1,
        ensures
            r < n,
            r == (c + d) % (n as int),
    {
        proof {
            lemma_wrap_in_range(c as int, d as int, n as int);
        }
        if d < 0 {
            if c == 0 {
                n - 1
            } else {
                c - 1
            }
        } else if d > 0 {
            if c == n - 1 {
                0
            } else {
                c + 1
            }
        } else {
            c
        }
    }

    /// The grid index reached from `p` by the lattice shift
    /// `(shift[0], shift[1], shift[2])`, each component being a single
    /// wrapped step along its axis.
    pub fn voronoi_shift(&self, p: usize, shift: &[isize; 3]) -> (q: usize)
        requires
            self.wf(),
            p < self.spec_total(),
            -1 <= shift[0] <= 1,
            -1 <= shift[1] <= 1,
            -1 <= shift[2] <= 1,
        ensures
            q < self.spec_total(),
            ({
                let (i, j, k) = self.coords(p as int);
                q == self.flat_index(
                    (i + shift[0]) % (self.x as int),
                    (j + shift[1]) % (self.y as int),
                    (k + shift[2]) % (self.z as int),
                )
            }),
    {
        let (i, j, k) = self.to_coords(p);
        let s0: isize = shift[0];
        let s1: isize = shift[1];
        let s2: isize = shift[2];
        let wi: usize = Self::wrap_coord(i, s0, self.x);
        let wj: usize = Self::wrap_coord(j, s1, self.y);
        let wk: usize = Self::wrap_coord(k, s2, self.z);
        self.to_index(wi, wj, wk)
    }
}

/// The Euclidean remainder that `wrap_coord` returns stays inside
/// `[0, n)`, and wrapping a value that is already in range changes
/// nothing; in particular wrapping twice equals wrapping once.
pub proof fn lemma_wrap_in_range(c: int, d: int, n: int)
    requires
        1 <= n,
        0 <= c < n,
        -1 <= d <= 1,
    ensures
        0 <= (c + d) % n < n,
        c + d == -1 ==> (c + d) % n == n - 1,
        0 <= c + d < n ==> (c + d) % n == c + d,
        c + d == n ==> (c + d) % n == 0,
        ((c + d) % n) % n == (c + d) % n,
{
    lemma_mod_division_less_than_divisor(c + d, n);
    if c + d == -1 {
        lemma_mod_add_multiples_vanish(-1, n);
        lemma_small_mod((n - 1) as nat, n as nat);
    } else if c + d < n {
        lemma_small_mod((c + d) as nat, n as nat);
    } else {
        lemma_mod_self_0(n);
    }
    lemma_small_mod(((c + d) % n) as nat, n as nat);
}

/// Stepping and stepping back: wrapping `c + d` and then wrapping the
/// opposite step `-d` returns to `c`, so every single-step Voronoi shift
/// is inverted by its opposite shift.
pub proof fn lemma_wrap_inverse(c: int, d: int, n: int)
    requires
        1 <= n,
        0 <= c < n,
        -1 <= d <= 1,
    ensures
        ((c + d) % n + (-d)) % n == c,
{
    lemma_wrap_in_range(c, d, n);
    let w = (c + d) % n;
    if 0 <= c + d < n {
        lemma_wrap_in_range(w, -d, n);
    } else if c + d == -1 {
        lemma_mod_self_0(n);
    } else {
        lemma_mod_add_multiples_vanish(-1, n);
        lemma_small_mod((n - 1) as nat, n as nat);
    }
}

/// Wrapping is idempotent: a second application of the periodic wrap is
/// the identity on the result of the first.
pub proof fn lemma_wrap_idempotent(v: int, n: int)
    requires
        1 <= n,
    ensures
        (v % n) % n == v % n,
{
    lemma_mod_division_less_than_divisor(v, n);
    lemma_small_mod((v % n) as nat, n as nat);
}

} // verus!
