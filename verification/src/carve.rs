//! The raster aggregate and the reduction driver: repeated cycles of energy
//! estimation, cumulative-table building, seam backtracing and seam removal,
//! until the requested fraction of the width is gone.

use vstd::prelude::*;

use crate::cumulative::{cumulative_energy, table_of};
use crate::energy::{energy_map, energy_of};
use crate::grid::{grid_view, is_grid};
use crate::seam::{backtrace_seam, seam_col, seam_cols};
use crate::CarveError;

verus! {

/// Carving is refused on rasters narrower than this.
pub const MIN_WIDTH: u32 = 3;

/// Carving is refused on rasters shorter than this.
pub const MIN_HEIGHT: u32 = 2;

/// The columns of a seam of `(column, row)` pairs, as mathematical integers.
pub open spec fn seam_cols_view(seam: Seq<(u32, u32)>) -> Seq<int> {
    Seq::new(seam.len(), |r: int| seam[r].0 as int)
}

/// Every row of the raster loses its cell in the column the seam names for
/// that row; later cells shift left by one.
pub open spec fn remove_cols(raster: Seq<Seq<[u8; 3]>>, cols: Seq<int>) -> Seq<Seq<[u8; 3]>> {
    Seq::new(raster.len(), |r: int| raster[r].remove(cols[r]))
}

/// The width of a raster: the length of its first row.
pub open spec fn raster_width(raster: Seq<Seq<[u8; 3]>>) -> int {
    if raster.len() > 0 {
        raster[0].len() as int
    } else {
        0
    }
}

/// One full carving cycle: compute the energy map of the raster, backtrace
/// the minimal seam through its cumulative table, and remove that seam.  A
/// raster below the carving floor (or one whose shape the cycle cannot rely
/// on) is left untouched.
pub open spec fn carve_step(raster: Seq<Seq<[u8; 3]>>) -> Seq<Seq<[u8; 3]>> {
    let h = raster.len() as int;
    let w = raster_width(raster);
    let em = energy_of(raster);
    if MIN_WIDTH <= w && MIN_HEIGHT <= h && is_grid(raster, w, h) && is_grid(em, w, h) {
        remove_cols(raster, seam_cols(table_of(em, w, h), w, h))
    } else {
        raster
    }
}

/// `k` carving cycles, one after the other.
pub open spec fn carved(raster: Seq<Seq<[u8; 3]>>, k: nat) -> Seq<Seq<[u8; 3]>>
    decreases k,
{
    if k == 0 {
        raster
    } else {
        carved(carve_step(raster), (k - 1) as nat)
    }
}

/// Carving is compositional: removing `k1` seams and then `k2` more from the
/// result is the same as removing `k1 + k2` seams in one run.
pub proof fn lemma_carved_additive(raster: Seq<Seq<[u8; 3]>>, k1: nat, k2: nat)
    ensures
        carved(raster, k1 + k2) == carved(carved(raster, k1), k2),
    decreases k1,
{
    if k1 > 0 {
        lemma_carved_additive(carve_step(raster), (k1 - 1) as nat, k2);
    }
}

/// A raster that one cycle leaves untouched stays untouched forever.
proof fn lemma_carved_stable(raster: Seq<Seq<[u8; 3]>>, k: nat)
    requires
        carve_step(raster) == raster,
    ensures
        carved(raster, k) == raster,
    decreases k,
{
    if k > 0 {
        lemma_carved_stable(raster, (k - 1) as nat);
    }
}

/// How many seams a reduction by `fraction` percent of a `w`-wide raster
/// asks for.
pub open spec fn seam_iterations(w: int, fraction: int) -> int {
    w * fraction / 100
}

/// The seams actually removed: the request, clipped so that the raster never
/// shrinks past the carving floor.
pub open spec fn clipped_iterations(w: int, fraction: int) -> int {
    let k = seam_iterations(w, fraction);
    if k <= w - (MIN_WIDTH - 1) {
        k
    } else {
        w - (MIN_WIDTH - 1)
    }
}

/// A raster fit for an `OpenImage`: at least one row, every row as long as
/// the first, nonempty rows, and both dimensions expressible in 32 bits.
pub open spec fn valid_raster(g: Seq<Seq<[u8; 3]>>) -> bool {
    &&& 1 <= g.len() <= u32::MAX
    &&& 1 <= g[0].len() <= u32::MAX
    &&& forall|r: int| 0 <= r < g.len() ==> (#[trigger] g[r]).len() == g[0].len()
}

/// An open raster: the pixel grid and its `(width, height)`.
#[derive(Debug)]
pub struct OpenImage {
    pub buffer: Vec<Vec<[u8; 3]>>,
    pub dims: (u32, u32),
}

impl OpenImage {
    /// The dimensions tell the truth about the grid.
    pub open spec fn wf(&self) -> bool {
        &&& 1 <= self.dims.0
        &&& 1 <= self.dims.1
        &&& is_grid(grid_view(self.buffer), self.dims.0 as int, self.dims.1 as int)
    }

    /// Takes ownership of a decoded pixel grid, measures it, and refuses a
    /// grid that is empty, ragged, or too large for 32-bit dimensions.
    pub fn new(buffer: Vec<Vec<[u8; 3]>>) -> (res: Result<OpenImage, CarveError>)
        ensures
            res is Ok <==> valid_raster(grid_view(buffer)),
            res matches Ok(img) ==> {
                &&& img.wf()
                &&& img.buffer == buffer
                &&& img.dims.0 == grid_view(buffer)[0].len()
                &&& img.dims.1 == grid_view(buffer).len()
            },
            res matches Err(e) ==> e == CarveError::InvalidInput,
    {
        let ghost gv = grid_view(buffer);
        let h = buffer.len();
        if h == 0 || h > u32::MAX as usize {
            return Err(CarveError::InvalidInput);
        }
        let w = buffer[0].len();
        if w == 0 || w > u32::MAX as usize {
            return Err(CarveError::InvalidInput);
        }
        let mut r: usize = 1;
        while r < h
            invariant
                1 <= r <= h,
                h == buffer@.len(),
                h == gv.len(),
                w == gv[0].len(),
                gv == grid_view(buffer),
                forall|i: int| 0 <= i < r ==> (#[trigger] gv[i]).len() == w,
            decreases h - r,
        {
            proof {
                assert(gv[r as int] == buffer@[r as int]@);
            }
            if buffer[r].len() != w {
                proof {
                    assert(gv[r as int].len() != gv[0].len());
                }
                return Err(CarveError::InvalidInput);
            }
            r = r + 1;
        }
        Ok(OpenImage { buffer, dims: (w as u32, h as u32) })
    }

    /// Finds the minimal vertical seam of the current raster: one
    /// `(column, row)` pair per row, top to bottom, 8-connected, backtraced
    /// through the cumulative table of the raster's energy map.
    pub fn find_vertical_seam(&self) -> (seam: Vec<(u32, u32)>)
        requires
            self.wf(),
        ensures
            ({
                let em = energy_of(grid_view(self.buffer));
                let w = self.dims.0 as int;
                let h = self.dims.1 as int;
                &&& is_grid(em, w, h)
                &&& seam@.len() == h
                &&& forall|r: int| 0 <= r < h ==> (#[trigger] seam@[r]).1 == r
                &&& forall|r: int| 0 <= r < h ==> (#[trigger] seam@[r]).0 < self.dims.0
                &&& forall|r: int|
                    0 <= r < h ==> (#[trigger] seam@[r]).0 as int == seam_col(
                        table_of(em, w, h),
                        w,
                        h,
                        r,
                    )
                &&& forall|r: int|
                    0 <= r < h - 1 ==> (#[trigger] seam@[r]).0 as int - seam@[r + 1].0 as int <= 1
                        && seam@[r + 1].0 as int - seam@[r].0 as int <= 1
            }),
    {
        let em = energy_map(&self.buffer, self.dims.0, self.dims.1);
        let ct = cumulative_energy(&em, self.dims.0, self.dims.1);
        backtrace_seam(&ct, self.dims.0, self.dims.1)
    }

    /// Deletes the seam's cell from every row: each row loses exactly the
    /// cell in its own seam column, so the raster keeps its height and all
    /// rows shrink to the same new width, one less than before.
    pub fn remove_vertical_seam(&mut self, v_seam: Vec<(u32, u32)>)
        requires
            old(self).wf(),
            old(self).dims.0 >= 2,
            v_seam@.len() == old(self).dims.1,
            forall|r: int| 0 <= r < v_seam@.len() ==> (#[trigger] v_seam@[r]).1 == r,
            forall|r: int| 0 <= r < v_seam@.len() ==> (#[trigger] v_seam@[r]).0 < old(self).dims.0,
        ensures
            final(self).wf(),
            final(self).dims.0 == old(self).dims.0 - 1,
            final(self).dims.1 == old(self).dims.1,
            grid_view(final(self).buffer) == remove_cols(
                grid_view(old(self).buffer),
                seam_cols_view(v_seam@),
            ),
    {
        let ghost gv = grid_view(old(self).buffer);
        let ghost w = old(self).dims.0 as int;
        let ghost h = old(self).dims.1 as int;
        let hh = self.dims.1 as usize;
        let ww = self.dims.0 as usize;
        let mut nb: Vec<Vec<[u8; 3]>> = Vec::new();
        let mut r: usize = 0;
        while r < hh
            invariant
                r <= h,
                hh == h,
                ww == w,
                2 <= w,
                *self == *old(self),
                gv == grid_view(self.buffer),
                gv.len() == h,
                forall|i: int| 0 <= i < h ==> (#[trigger] gv[i]).len() == w,
                v_seam@.len() == h,
                forall|i: int| 0 <= i < h ==> (#[trigger] v_seam@[i]).0 < w,
                nb@.len() == r,
                forall|i: int|
                    0 <= i < r ==> (#[trigger] nb@[i])@ == gv[i].remove(v_seam@[i].0 as int),
            decreases hh - r,
        {
            let col = v_seam[r].0 as usize;
            let ghost colg = col as int;
            let mut row: Vec<[u8; 3]> = Vec::new();
            let mut c: usize = 0;
            while c < ww
                invariant
                    r < h,
                    hh == h,
                    ww == w,
                    c <= w,
                    colg == col,
                    0 <= colg < w,
                    *self == *old(self),
                    gv == grid_view(self.buffer),
                    gv.len() == h,
                    forall|i: int| 0 <= i < h ==> (#[trigger] gv[i]).len() == w,
                    c <= colg ==> row@ == gv[r as int].subrange(0, c as int),
                    c > colg ==> row@ == gv[r as int].subrange(0, colg) + gv[r as int].subrange(
                        colg + 1,
                        c as int,
                    ),
                decreases ww - c,
            {
                proof {
                    assert(gv[r as int] == self.buffer@[r as int]@);
                }
                if c != col {
                    row.push(self.buffer[r][c]);
                }
                proof {
                    let grow = gv[r as int];
                    if c < colg {
                        assert(grow.subrange(0, c + 1) =~= grow.subrange(0, c as int).push(
                            grow[c as int],
                        ));
                    } else if c > colg {
                        assert(grow.subrange(colg + 1, c + 1) =~= grow.subrange(colg + 1, c as int)
                            .push(grow[c as int]));
                    } else {
                        assert(row@ == grow.subrange(0, colg) + grow.subrange(colg + 1, colg + 1));
                    }
                }
                c = c + 1;
            }
            proof {
                assert(row@ == gv[r as int].remove(colg));
            }
            nb.push(row);
            r = r + 1;
        }
        self.buffer = nb;
        self.dims.0 = self.dims.0 - 1;
        proof {
            assert(grid_view(self.buffer) =~= remove_cols(gv, seam_cols_view(v_seam@)));
            assert forall|i: int| 0 <= i < h implies (#[trigger] grid_view(self.buffer)[i]).len()
                == w - 1 by {
                gv[i].remove_ensures(v_seam@[i].0 as int);
            }
        }
    }

    /// Carves `floor(width * fraction / 100)` seams out of the raster, or as
    /// many as the carving floor allows, whichever is fewer.  `fraction` is a
    /// percentage of the current width; anything over 100 is refused, as is a
    /// raster below the carving floor.  On success the height is unchanged
    /// and the width has shrunk by exactly the clipped seam count.
    pub fn reduce(self, fraction: u32) -> (res: Result<OpenImage, CarveError>)
        requires
            self.wf(),
        ensures
            res is Ok <==> (fraction <= 100 && self.dims.0 >= MIN_WIDTH && self.dims.1
                >= MIN_HEIGHT),
            res matches Err(e) ==> e == CarveError::InvalidInput,
            res matches Ok(out) ==> {
                &&& out.wf()
                &&& grid_view(out.buffer) == carved(
                    grid_view(self.buffer),
                    seam_iterations(self.dims.0 as int, fraction as int) as nat,
                )
                &&& out.dims.1 == self.dims.1
                &&& out.dims.0 as int == self.dims.0 - clipped_iterations(
                    self.dims.0 as int,
                    fraction as int,
                )
                &&& fraction == 0 ==> (out.buffer == self.buffer && out.dims == self.dims)
            },
    {
        if fraction > 100 || self.dims.0 < MIN_WIDTH || self.dims.1 < MIN_HEIGHT {
            return Err(CarveError::InvalidInput);
        }
        let ghost orig = grid_view(self.buffer);
        let ghost w0 = self.dims.0 as int;
        let ghost h0 = self.dims.1 as int;
        let ghost kg = seam_iterations(w0, fraction as int);

        let w64: u64 = self.dims.0 as u64;
        proof {
            assert(w64 * (fraction as u64) <= 0xFFFFFFFFu64 * 100) by (nonlinear_arith)
                requires
                    w64 <= 0xFFFFFFFFu64,
                    fraction <= 100,
            ;
        }
        let k64: u64 = w64 * (fraction as u64) / 100;
        proof {
            assert(w0 * fraction <= w0 * 100) by (nonlinear_arith)
                requires
                    fraction <= 100,
                    w0 >= 0,
            ;
            assert(w0 * 100 / 100 == w0) by (nonlinear_arith);
            vstd::arithmetic::div_mod::lemma_div_is_ordered(w0 * fraction, w0 * 100, 100);
            assert(kg <= w0);
            assert(k64 == kg);
        }
        let k: u32 = k64 as u32;

        let mut img = self;
        let mut done: u32 = 0;
        while done < k && img.dims.0 >= MIN_WIDTH
            invariant
                img.wf(),
                done <= k,
                k == kg,
                img.dims.1 == h0,
                2 <= h0,
                img.dims.0 as int == w0 - done,
                w0 - done >= MIN_WIDTH - 1,
                grid_view(img.buffer) == carved(orig, done as nat),
                done == 0 ==> img == self,
            decreases k - done,
        {
            let ghost before = grid_view(img.buffer);
            let ghost wc = img.dims.0 as int;
            let seam = img.find_vertical_seam();
            proof {
                assert(raster_width(before) == wc);
                assert(carve_step(before) == remove_cols(
                    before,
                    seam_cols(table_of(energy_of(before), wc, h0), wc, h0),
                ));
            }
            img.remove_vertical_seam(seam);
            proof {
                assert(seam_cols_view(seam@) =~= seam_cols(
                    table_of(energy_of(before), wc, h0),
                    wc,
                    h0,
                ));
                assert(grid_view(img.buffer) == carve_step(before));
                lemma_carved_additive(orig, done as nat, 1);
                assert(carved(before, 1) == carve_step(before)) by {
                    assert(carved(carve_step(before), 0) == carve_step(before));
                }
                assert(carved(carved(orig, done as nat), 1) == carve_step(before));
                assert(grid_view(img.buffer) == carved(orig, (done + 1) as nat));
            }
            done = done + 1;
        }
        proof {
            if done < k {
                assert(img.dims.0 == MIN_WIDTH - 1);
                assert(raster_width(grid_view(img.buffer)) == MIN_WIDTH - 1);
                assert(carve_step(grid_view(img.buffer)) == grid_view(img.buffer));
                lemma_carved_stable(grid_view(img.buffer), (k - done) as nat);
                lemma_carved_additive(orig, done as nat, (k - done) as nat);
                assert(carved(orig, k as nat) == grid_view(img.buffer));
                assert(done == w0 - (MIN_WIDTH - 1));
            }
            assert(done == clipped_iterations(w0, fraction as int));
            if fraction == 0 {
                assert(w0 * (fraction as int) == 0) by (nonlinear_arith)
                    requires
                        fraction == 0,
                ;
                assert(kg == 0);
                assert(done == 0);
                assert(img == self);
            }
        }
        Ok(img)
    }
}

} // verus!
