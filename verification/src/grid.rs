//! Rectangular grids of plain values, seen as sequences of rows.

use vstd::prelude::*;

verus! {

/// `g` has exactly `h` rows and every row has exactly `w` cells.
pub open spec fn is_grid<T>(g: Seq<Seq<T>>, w: int, h: int) -> bool {
    g.len() == h && (forall|r: int| 0 <= r < h ==> (#[trigger] g[r]).len() == w)
}

/// The rows of a vector of vectors, as a sequence of sequences.
pub open spec fn grid_view<T>(g: Vec<Vec<T>>) -> Seq<Seq<T>> {
    Seq::new(g@.len(), |r: int| g@[r]@)
}

/// The flat, row-major sequence `s` cut into rows of length `w`.
pub open spec fn rows_of<T>(s: Seq<T>, w: nat) -> Seq<Seq<T>> {
    Seq::new(s.len() / w, |r: int| Seq::new(w, |c: int| s[r * w + c]))
}

/// In a grid of `r` full rows of width `w`, every cell `(i, j)` sits before
/// the end of the flat row-major layout.
pub proof fn lemma_row_major_index(i: int, j: int, r: int, w: int)
    requires
        0 <= i < r,
        0 <= j < w,
    ensures
        0 <= i * w + j < r * w,
    decreases r,
{
    assert(0 <= i * w + j < r * w) by (nonlinear_arith)
        requires
            0 <= i < r,
            0 <= j < w,
    ;
}

/// For positions `(column, row)`, the cells of `buff` at those positions, in
/// the order the positions are given.
pub fn convert_pos_to_pix<T: Copy>(pos: &[(u32, u32)], buff: &mut Vec<Vec<T>>) -> (pxs: Vec<T>)
    requires
        forall|i: int|
            0 <= i < pos@.len() ==> (#[trigger] pos@[i]).1 < old(buff)@.len()
                && pos@[i].0 < old(buff)@[pos@[i].1 as int]@.len(),
    ensures
        *final(buff) == *old(buff),
        pxs@.len() == pos@.len(),
        forall|i: int|
            0 <= i < pos@.len() ==> #[trigger] pxs@[i]
                == old(buff)@[pos@[i].1 as int]@[pos@[i].0 as int],
{
    let mut pxs: Vec<T> = Vec::new();
    let mut i: usize = 0;
    while i < pos.len()
        invariant
            i <= pos@.len(),
            *buff == *old(buff),
            pxs@.len() == i,
            forall|k: int|
                0 <= k < pos@.len() ==> (#[trigger] pos@[k]).1 < buff@.len()
                    && pos@[k].0 < buff@[pos@[k].1 as int]@.len(),
            forall|k: int|
                0 <= k < i ==> #[trigger] pxs@[k] == buff@[pos@[k].1 as int]@[pos@[k].0 as int],
        decreases pos@.len() - i,
    {
        let (c, r) = pos[i];
        pxs.push(buff[r as usize][c as usize]);
        i = i + 1;
    }
    pxs
}

} // verus!
