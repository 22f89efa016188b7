//! Seam finding: backtracing a cumulative energy table into the single
//! minimal-cost vertical seam, one column per row, ties broken toward the
//! smallest column index.

use vstd::prelude::*;

use crate::cumulative::{cum, last_row_min, lemma_cum_bounds, min_in_row, table_of};
use crate::grid::{grid_view, is_grid};

verus! {

/// The leftmost index of a minimal value among the first `n` entries.
pub open spec fn argmin_prefix(row: Seq<u64>, n: int) -> int
    decreases n,
{
    if n <= 1 {
        0
    } else {
        let a = argmin_prefix(row, n - 1);
        if row[n - 1] < row[a] {
            n - 1
        } else {
            a
        }
    }
}

/// `argmin_prefix` indexes a minimal entry, and every entry to its left is
/// strictly larger.
pub proof fn lemma_argmin_prefix(row: Seq<u64>, n: int)
    requires
        1 <= n,
    ensures
        0 <= argmin_prefix(row, n) < n,
        forall|j: int| 0 <= j < n ==> row[argmin_prefix(row, n)] <= #[trigger] row[j],
        forall|j: int| 0 <= j < argmin_prefix(row, n) ==> row[argmin_prefix(row, n)] < #[trigger] row[j],
    decreases n,
{
    if n > 1 {
        lemma_argmin_prefix(row, n - 1);
    }
}

/// The column chosen in row `r` when the seam passes through column `c` of
/// the row below: the leftmost minimal entry of `t[r]` among the columns
/// `{c - 1, c, c + 1}` clipped to `0..w`.
pub open spec fn step_col(t: Seq<Seq<u64>>, w: int, r: int, c: int) -> int {
    let lo = if c > 0 {
        c - 1
    } else {
        0
    };
    let hi = if c + 1 < w {
        c + 1
    } else {
        w - 1
    };
    let b2 = if lo + 1 <= hi && t[r][lo + 1] < t[r][lo] {
        lo + 1
    } else {
        lo
    };
    if lo + 2 <= hi && t[r][lo + 2] < t[r][b2] {
        lo + 2
    } else {
        b2
    }
}

/// The seam's column in row `r`, backtraced from the leftmost minimum of the
/// last row of the table `t`.
pub open spec fn seam_col(t: Seq<Seq<u64>>, w: int, h: int, r: int) -> int
    decreases h - r,
{
    if r >= h - 1 {
        argmin_prefix(t[h - 1], w)
    } else {
        step_col(t, w, r, seam_col(t, w, h, r + 1))
    }
}

/// The whole seam of the table `t`, one column per row, top to bottom.
pub open spec fn seam_cols(t: Seq<Seq<u64>>, w: int, h: int) -> Seq<int> {
    Seq::new(h as nat, |r: int| seam_col(t, w, h, r))
}

/// Every seam column is in range, and rows next to each other never drift
/// apart by more than one column.
pub proof fn lemma_seam_col_range(t: Seq<Seq<u64>>, w: int, h: int, r: int)
    requires
        1 <= w,
        0 <= r < h,
    ensures
        0 <= seam_col(t, w, h, r) < w,
        r < h - 1 ==> seam_col(t, w, h, r + 1) - 1 <= seam_col(t, w, h, r) <= seam_col(t, w, h, r + 1) + 1,
    decreases h - r,
{
    if r >= h - 1 {
        lemma_argmin_prefix(t[h - 1], w);
    } else {
        lemma_seam_col_range(t, w, h, r + 1);
    }
}

/// Backtraces the minimal vertical seam through a cumulative table: the
/// leftmost minimum of the last row, then upward always the leftmost minimal
/// neighbour among the three columns above.  The result pairs are
/// `(column, row)`, ordered top to bottom, one per row, 8-connected.
#[verifier::loop_isolation(false)]
pub fn backtrace_seam(ct: &Vec<Vec<u64>>, width: u32, height: u32) -> (seam: Vec<(u32, u32)>)
    requires
        1 <= width,
        1 <= height,
        is_grid(grid_view(*ct), width as int, height as int),
    ensures
        seam@.len() == height,
        forall|r: int| 0 <= r < height ==> (#[trigger] seam@[r]).1 == r,
        forall|r: int| 0 <= r < height ==> (#[trigger] seam@[r]).0 < width,
        forall|r: int|
            0 <= r < height ==> (#[trigger] seam@[r]).0 as int
                == seam_col(grid_view(*ct), width as int, height as int, r),
        forall|r: int|
            0 <= r < height - 1 ==> (#[trigger] seam@[r]).0 as int - seam@[r + 1].0 as int <= 1
                && seam@[r + 1].0 as int - seam@[r].0 as int <= 1,
{
    let ghost tv = grid_view(*ct);
    let ghost w = width as int;
    let ghost h = height as int;
    let hh = height as usize;
    let ww = width as usize;

    proof {
        assert forall|i: int| 0 <= i < h implies (#[trigger] tv[i]).len() == w && tv[i]
            == ct@[i]@ by {}
    }

    let mut best: usize = 0;
    let mut j: usize = 1;
    while j < ww
        invariant
            1 <= j <= ww,
            best < j,
            best as int == argmin_prefix(tv[h - 1], j as int),
        decreases ww - j,
    {
        if ct[hh - 1][j] < ct[hh - 1][best] {
            best = j;
        }
        j = j + 1;
    }

    let mut rev_cols: Vec<u32> = Vec::new();
    rev_cols.push(best as u32);
    let mut cur: usize = best;
    let mut rr: usize = hh - 1;
    while rr > 0
        invariant
            rr <= h - 1,
            cur < ww,
            cur as int == seam_col(tv, w, h, rr as int),
            rev_cols@.len() == h - rr,
            forall|i: int|
                0 <= i < rev_cols@.len() ==> (#[trigger] rev_cols@[i]) as int
                    == seam_col(tv, w, h, h - 1 - i),
        decreases rr,
    {
        let prevr = rr - 1;
        let lo = if cur > 0 {
            cur - 1
        } else {
            0
        };
        let hi = if cur + 1 < ww {
            cur + 1
        } else {
            ww - 1
        };
        proof {
            assert(tv[prevr as int].len() == w);
            assert(tv[prevr as int] == ct@[prevr as int]@);
        }
        let mut b = lo;
        if lo < hi && ct[prevr][lo + 1] < ct[prevr][b] {
            b = lo + 1;
        }
        if lo + 1 < hi && ct[prevr][lo + 2] < ct[prevr][b] {
            b = lo + 2;
        }
        proof {
            assert(b as int == step_col(tv, w, prevr as int, cur as int));
            assert(b as int == seam_col(tv, w, h, prevr as int));
        }
        cur = b;
        rev_cols.push(b as u32);
        rr = prevr;
    }

    let mut seam: Vec<(u32, u32)> = Vec::new();
    let mut r2: usize = 0;
    while r2 < hh
        invariant
            r2 <= h,
            rev_cols@.len() == h,
            forall|i: int|
                0 <= i < h ==> (#[trigger] rev_cols@[i]) as int == seam_col(tv, w, h, h - 1 - i),
            seam@.len() == r2,
            forall|i: int|
                0 <= i < r2 ==> (#[trigger] seam@[i]).0 as int == seam_col(tv, w, h, i)
                    && seam@[i].1 == i,
        decreases hh - r2,
    {
        let col = rev_cols[hh - 1 - r2];
        seam.push((col, r2 as u32));
        r2 = r2 + 1;
    }

    proof {
        assert forall|r: int| 0 <= r < h implies 0 <= #[trigger] seam_col(tv, w, h, r) < w && (r < h
            - 1 ==> seam_col(tv, w, h, r + 1) - 1 <= seam_col(tv, w, h, r) <= seam_col(
            tv,
            w,
            h,
            r + 1,
        ) + 1) by {
            lemma_seam_col_range(tv, w, h, r);
        }
    }
    seam
}

/// For a position `(column, row)` with the column inside a grid `dims`
/// columns wide, the positions of the up-to-three cells directly above it,
/// left to right, together with the row they sit in.  The first row has no
/// cells above it.
pub fn get_upper_edges(dims: (u32, u32), pos: (u32, u32)) -> (res: Result<
    (u32, Vec<(u32, u32)>),
    &'static str,
>)
    requires
        pos.0 < dims.0,
    ensures
        res is Err <==> pos.1 == 0,
        pos.1 > 0 ==> (res matches Ok(p) && {
            let base = if pos.0 > 0 {
                pos.0 - 1
            } else {
                0
            };
            let top = if pos.0 + 1 < dims.0 {
                pos.0 + 1
            } else {
                dims.0 - 1
            };
            &&& p.0 == pos.1 - 1
            &&& p.1@.len() == top + 1 - base
            &&& forall|i: int|
                0 <= i < p.1@.len() ==> #[trigger] p.1@[i] == ((base + i) as u32, (pos.1 - 1) as u32)
        }),
{
    if pos.1 == 0 {
        return Err("first row");
    }
    let up = pos.1 - 1;
    let base = if pos.0 > 0 {
        pos.0 - 1
    } else {
        0
    };
    let top = if pos.0 + 1 < dims.0 {
        pos.0 + 1
    } else {
        dims.0 - 1
    };
    let mut v: Vec<(u32, u32)> = Vec::new();
    let mut c = base;
    while c <= top
        invariant
            base <= c <= top + 1,
            top < dims.0,
            v@.len() == c - base,
            forall|i: int| 0 <= i < v@.len() ==> #[trigger] v@[i] == ((base + i) as u32, up),
        decreases top + 1 - c,
    {
        v.push((c, up));
        c = c + 1;
    }
    Ok((up, v))
}

/// The total energy of a path: the sum of the energies under the path's
/// cells, row `i` contributing its cell in column `cols[i]`.
pub open spec fn path_energy(em: Seq<Seq<u16>>, cols: Seq<int>) -> int
    decreases cols.len(),
{
    if cols.len() == 0 {
        0
    } else {
        path_energy(em, cols.drop_last()) + em[cols.len() - 1][cols.last()]
    }
}

/// One backtrace step undoes one dynamic-programming step: the cumulative
/// value at `(r + 1, c)` is the cell's energy plus the cumulative value at
/// the chosen cell above.
proof fn lemma_step_min(em: Seq<Seq<u16>>, w: int, h: int, r: int, c: int)
    requires
        1 <= w,
        h <= u32::MAX,
        0 <= r,
        r + 1 < h,
        0 <= c < w,
    ensures
        cum(em, w, r + 1, c) == em[r + 1][c] + cum(em, w, r, step_col(table_of(em, w, h), w, r, c)),
{
    let t = table_of(em, w, h);
    let lo = if c > 0 {
        c - 1
    } else {
        0
    };
    let hi = if c + 1 < w {
        c + 1
    } else {
        w - 1
    };
    assert forall|x: int| lo <= x <= hi implies (#[trigger] t[r][x]) as int == cum(em, w, r, x) by {
        lemma_cum_bounds(em, w, r, x);
        assert((r + 1) * 0xFFFF <= h * 0xFFFF);
    }
}

/// The seam's energy, summed over the first `r + 1` rows, equals the
/// cumulative value under the seam's cell in row `r`.
proof fn lemma_seam_energy_upto(em: Seq<Seq<u16>>, w: int, h: int, r: int)
    requires
        1 <= w,
        1 <= h <= u32::MAX,
        0 <= r < h,
    ensures
        path_energy(em, seam_cols(table_of(em, w, h), w, h).take(r + 1))
            == cum(em, w, r, seam_col(table_of(em, w, h), w, h, r)),
    decreases r,
{
    let t = table_of(em, w, h);
    let cols = seam_cols(t, w, h);
    assert(cols.take(r + 1).len() == r + 1);
    assert(cols.take(r + 1).last() == seam_col(t, w, h, r));
    assert(cols.take(r + 1).drop_last() =~= cols.take(r));
    if r == 0 {
        assert(path_energy(em, cols.take(0)) == 0);
    } else {
        lemma_seam_energy_upto(em, w, h, r - 1);
        lemma_seam_col_range(t, w, h, r);
        lemma_step_min(em, w, h, r - 1, seam_col(t, w, h, r));
        assert(seam_col(t, w, h, r - 1) == step_col(t, w, r - 1, seam_col(t, w, h, r)));
    }
}

/// The leftmost minimal column of the last row carries the least cumulative
/// value among the first `n` columns.
proof fn lemma_argmin_is_min(em: Seq<Seq<u16>>, w: int, h: int, n: int)
    requires
        1 <= w,
        1 <= h <= u32::MAX,
        1 <= n <= w,
    ensures
        cum(em, w, h - 1, argmin_prefix(table_of(em, w, h)[h - 1], n)) == min_in_row(em, w, h - 1, n),
    decreases n,
{
    let t = table_of(em, w, h);
    assert forall|x: int| 0 <= x < w implies (#[trigger] t[h - 1][x]) as int
        == cum(em, w, h - 1, x) by {
        lemma_cum_bounds(em, w, h - 1, x);
        assert(h * 0xFFFF <= 0xFFFFFFFF * 0xFFFF);
    }
    if n > 1 {
        lemma_argmin_is_min(em, w, h, n - 1);
        lemma_argmin_prefix(t[h - 1], n - 1);
    }
}

/// The core guarantee of the dynamic program: the seam backtraced from the
/// cumulative table of an energy map has total energy exactly the least
/// cumulative value in the table's last row.
pub proof fn lemma_seam_energy(em: Seq<Seq<u16>>, w: int, h: int)
    requires
        1 <= w,
        1 <= h <= u32::MAX,
    ensures
        path_energy(em, seam_cols(table_of(em, w, h), w, h)) == last_row_min(em, w, h),
{
    let t = table_of(em, w, h);
    lemma_seam_energy_upto(em, w, h, h - 1);
    assert(seam_cols(t, w, h).take(h) =~= seam_cols(t, w, h));
    lemma_argmin_is_min(em, w, h, w);
}

} // verus!
