//! Cumulative energy: the dynamic-programming table of minimum accumulated
//! energy from the top edge to every cell of an energy map.

use vstd::prelude::*;

use crate::grid::{grid_view, is_grid};

verus! {

/// The smaller of two values.
pub open spec fn min2(a: int, b: int) -> int {
    if a <= b {
        a
    } else {
        b
    }
}

/// The minimum accumulated energy of any 8-connected top-to-cell path ending
/// at `(r, c)`: the cell's own energy plus the least cumulative energy among
/// the up-to-three cells above it, with columns clipped to `0..w`.
pub open spec fn cum(em: Seq<Seq<u16>>, w: int, r: int, c: int) -> int
    decreases r,
{
    if r <= 0 {
        em[0][c] as int
    } else {
        let mid = cum(em, w, r - 1, c);
        let left = if c > 0 {
            cum(em, w, r - 1, c - 1)
        } else {
            mid
        };
        let right = if c + 1 < w {
            cum(em, w, r - 1, c + 1)
        } else {
            mid
        };
        em[r][c] + min2(min2(left, mid), right)
    }
}

/// The whole cumulative table of a `w` by `h` energy map.
pub open spec fn table_of(em: Seq<Seq<u16>>, w: int, h: int) -> Seq<Seq<u64>> {
    Seq::new(h as nat, |r: int| Seq::new(w as nat, |c: int| cum(em, w, r, c) as u64))
}

/// Every cumulative value lies between 0 and `(r + 1) * 0xFFFF`, because each
/// of the `r + 1` path cells contributes one 16-bit energy.
pub proof fn lemma_cum_bounds(em: Seq<Seq<u16>>, w: int, r: int, c: int)
    requires
        0 <= r,
    ensures
        0 <= cum(em, w, r, c) <= (r + 1) * 0xFFFF,
    decreases r,
{
    if r > 0 {
        lemma_cum_bounds(em, w, r - 1, c);
        if c > 0 {
            lemma_cum_bounds(em, w, r - 1, c - 1);
        }
        if c + 1 < w {
            lemma_cum_bounds(em, w, r - 1, c + 1);
        }
    }
}

/// Raising energies never lowers a cumulative value.
pub proof fn lemma_cum_monotone(em1: Seq<Seq<u16>>, em2: Seq<Seq<u16>>, w: int, h: int, r: int, c: int)
    requires
        1 <= w,
        0 <= r < h,
        0 <= c < w,
        forall|i: int, j: int|
            0 <= i < h && 0 <= j < w ==> (#[trigger] em1[i][j]) <= em2[i][j],
    ensures
        cum(em1, w, r, c) <= cum(em2, w, r, c),
    decreases r,
{
    if r > 0 {
        lemma_cum_monotone(em1, em2, w, h, r - 1, c);
        if c > 0 {
            lemma_cum_monotone(em1, em2, w, h, r - 1, c - 1);
        }
        if c + 1 < w {
            lemma_cum_monotone(em1, em2, w, h, r - 1, c + 1);
        }
    }
}

/// The least cumulative value in row `r` among columns `0..n`.
pub open spec fn min_in_row(em: Seq<Seq<u16>>, w: int, r: int, n: int) -> int
    decreases n,
{
    if n <= 1 {
        cum(em, w, r, 0)
    } else {
        min2(min_in_row(em, w, r, n - 1), cum(em, w, r, n - 1))
    }
}

/// The least cumulative value in the last row of the table: the total energy
/// of the best vertical seam.
pub open spec fn last_row_min(em: Seq<Seq<u16>>, w: int, h: int) -> int {
    min_in_row(em, w, h - 1, w)
}

proof fn lemma_min_in_row_monotone(em1: Seq<Seq<u16>>, em2: Seq<Seq<u16>>, w: int, h: int, n: int)
    requires
        1 <= w,
        1 <= h,
        1 <= n <= w,
        forall|i: int, j: int|
            0 <= i < h && 0 <= j < w ==> (#[trigger] em1[i][j]) <= em2[i][j],
    ensures
        min_in_row(em1, w, h - 1, n) <= min_in_row(em2, w, h - 1, n),
    decreases n,
{
    lemma_cum_monotone(em1, em2, w, h, h - 1, n - 1);
    if n > 1 {
        lemma_min_in_row_monotone(em1, em2, w, h, n - 1);
    }
}

/// Perturbing an energy map so that no value decreases can only raise (or
/// keep) the minimum cumulative energy in the last row of its table.
pub proof fn lemma_last_row_min_monotone(em1: Seq<Seq<u16>>, em2: Seq<Seq<u16>>, w: int, h: int)
    requires
        1 <= w,
        1 <= h,
        is_grid(em1, w, h),
        is_grid(em2, w, h),
        forall|i: int, j: int|
            0 <= i < h && 0 <= j < w ==> (#[trigger] em1[i][j]) <= em2[i][j],
    ensures
        last_row_min(em1, w, h) <= last_row_min(em2, w, h),
{
    lemma_min_in_row_monotone(em1, em2, w, h, w);
}

/// Builds the cumulative table of a rectangular energy map in one
/// top-to-bottom sweep.  Row 0 is the energy map's own row 0; every later
/// cell adds the least of the up-to-three cells above it.
#[verifier::loop_isolation(false)]
pub fn cumulative_energy(em: &Vec<Vec<u16>>, width: u32, height: u32) -> (ct: Vec<Vec<u64>>)
    requires
        1 <= width,
        1 <= height,
        is_grid(grid_view(*em), width as int, height as int),
    ensures
        is_grid(grid_view(ct), width as int, height as int),
        grid_view(ct) == table_of(grid_view(*em), width as int, height as int),
{
    let ghost ev = grid_view(*em);
    let ghost w = width as int;
    let ghost h = height as int;

    let mut ct: Vec<Vec<u64>> = Vec::new();
    let mut r: usize = 0;
    while r < height as usize
        invariant
            r <= h,
            ct@.len() == r,
            forall|i: int| 0 <= i < r ==> (#[trigger] ct@[i])@.len() == w,
            forall|i: int, j: int|
                0 <= i < r && 0 <= j < w ==> (#[trigger] ct@[i]@[j]) as int == cum(ev, w, i, j),
        decreases h - r,
    {
        proof {
            assert(ev[r as int].len() == w);
            assert(ev[r as int] == em@[r as int]@);
        }
        let mut row: Vec<u64> = Vec::new();
        let mut c: usize = 0;
        while c < width as usize
            invariant
                r < h,
                c <= w,
                ct@.len() == r,
                forall|i: int| 0 <= i < r ==> (#[trigger] ct@[i])@.len() == w,
                forall|i: int, j: int|
                    0 <= i < r && 0 <= j < w ==> (#[trigger] ct@[i]@[j]) as int == cum(ev, w, i, j),
                row@.len() == c,
                forall|j: int|
                    0 <= j < c ==> (#[trigger] row@[j]) as int == cum(ev, w, r as int, j),
            decreases w - c,
        {
            let e = em[r][c] as u64;
            proof {
                assert(e == ev[r as int][c as int]);
            }
            let val: u64;
            if r == 0 {
                val = e;
            } else {
                proof {
                    lemma_cum_bounds(ev, w, r as int - 1, c as int);
                    if c > 0 {
                        lemma_cum_bounds(ev, w, r as int - 1, c as int - 1);
                    }
                    if c + 1 < width as usize {
                        lemma_cum_bounds(ev, w, r as int - 1, c as int + 1);
                    }
                    assert(r * 0xFFFF <= h * 0xFFFF);
                }
                let mid = ct[r - 1][c];
                let left = if c > 0 {
                    ct[r - 1][c - 1]
                } else {
                    mid
                };
                let right = if c + 1 < width as usize {
                    ct[r - 1][c + 1]
                } else {
                    mid
                };
                let mut m = left;
                if mid < m {
                    m = mid;
                }
                if right < m {
                    m = right;
                }
                proof {
                    assert(m as int == min2(min2(left as int, mid as int), right as int));
                }
                val = e + m;
            }
            row.push(val);
            c = c + 1;
        }
        ct.push(row);
        r = r + 1;
    }

    proof {
        let tv = table_of(ev, w, h);
        assert forall|i: int| 0 <= i < h implies grid_view(ct)[i] =~= tv[i] by {
            assert forall|j: int| 0 <= j < w implies grid_view(ct)[i][j] == tv[i][j] by {
                lemma_cum_bounds(ev, w, i, j);
                assert(ct@[i]@[j] as int == cum(ev, w, i, j));
            }
        }
        assert(grid_view(ct) =~= tv);
    }
    ct
}

} // verus!
