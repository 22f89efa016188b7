//! Energy estimation: the per-pixel importance of a raster is the Sobel
//! gradient magnitude of its luma (grayscale) image.

use vstd::prelude::*;

use crate::grid::{grid_view, is_grid, lemma_row_major_index, rows_of};

verus! {

/// The sRGB luma of an RGB pixel, as the image codec computes it:
/// `(2126 r + 7152 g + 722 b) / 10000` in integer arithmetic.
pub open spec fn luma_value(p: [u8; 3]) -> u8 {
    ((2126 * p[0] + 7152 * p[1] + 722 * p[2]) / 10000) as u8
}

/// Relies on image's `Pixel::to_luma` for `Rgb<u8>`: the sRGB luma of the
/// channels, `(2126 r + 7152 g + 722 b) / 10000`, computed in integers and
/// clamped to `u8` (a no-op, since the coefficients sum to 10000).
#[verifier::external_body]
fn rgb_luma(p: [u8; 3]) -> (l: u8)
    ensures
        l == luma_value(p),
{
    image::Pixel::to_luma(&image::Rgb(p)).0[0]
}

/// The luma image of a raster, pixel by pixel.
pub open spec fn luma_grid(raster: Seq<Seq<[u8; 3]>>) -> Seq<Seq<u8>> {
    Seq::new(
        raster.len(),
        |r: int| Seq::new(raster[r].len(), |c: int| luma_value(raster[r][c])),
    )
}

/// What imageproc's Sobel operator returns on a grayscale image.  The result
/// depends on the pixels alone, so it has a name rather than a formula.
pub uninterp spec fn sobel_of(luma: Seq<Seq<u8>>) -> Seq<Seq<u16>>;

/// Relies on imageproc's `gradients::sobel_gradients`: the per-pixel
/// magnitude of the horizontal and vertical 3x3 Sobel responses, with
/// clamp-to-edge handling at the borders.  The result is a function of the
/// pixels alone and has the dimensions of the input; `data` is the input in
/// row-major order and the result is returned the same way.
#[verifier::external_body]
fn sobel_rows(data: Vec<u8>, width: u32, height: u32) -> (r: Vec<u16>)
    requires
        1 <= width,
        1 <= height,
        data@.len() == width * height,
    ensures
        r@.len() == width * height,
        rows_of(r@, width as nat) == sobel_of(rows_of(data@, width as nat)),
{
    let img = image::GrayImage::from_raw(width, height, data).unwrap();
    imageproc::gradients::sobel_gradients(&img).into_raw()
}

/// The energy map of a raster: Sobel gradient magnitudes of its luma image.
pub open spec fn energy_of(raster: Seq<Seq<[u8; 3]>>) -> Seq<Seq<u16>> {
    sobel_of(luma_grid(raster))
}

/// Computes the energy map of a rectangular raster.  The result always has
/// the raster's own dimensions.
#[verifier::loop_isolation(false)]
pub fn energy_map(raster: &Vec<Vec<[u8; 3]>>, width: u32, height: u32) -> (em: Vec<Vec<u16>>)
    requires
        1 <= width,
        1 <= height,
        is_grid(grid_view(*raster), width as int, height as int),
    ensures
        grid_view(em) == energy_of(grid_view(*raster)),
        is_grid(grid_view(em), width as int, height as int),
{
    let ghost rv = grid_view(*raster);
    let ghost lg = luma_grid(rv);
    let ghost w = width as int;
    let ghost h = height as int;

    let mut flat: Vec<u8> = Vec::new();
    let mut r: usize = 0;
    while r < height as usize
        invariant
            r <= h,
            flat@.len() == r * w,
            forall|i: int, j: int|
                0 <= i < r && 0 <= j < w ==> #[trigger] flat@[i * w + j] == lg[i][j],
        decreases h - r,
    {
        let mut c: usize = 0;
        while c < width as usize
            invariant
                r < h,
                c <= w,
                flat@.len() == r * w + c,
                forall|i: int, j: int|
                    0 <= i < r && 0 <= j < w ==> #[trigger] flat@[i * w + j] == lg[i][j],
                forall|j: int| 0 <= j < c ==> #[trigger] flat@[r * w + j] == lg[r as int][j],
            decreases w - c,
        {
            proof {
                assert(rv[r as int].len() == w);
                assert(rv[r as int] == raster@[r as int]@);
            }
            let px = raster[r][c];
            flat.push(rgb_luma(px));
            proof {
                assert(lg[r as int][c as int] == luma_value(rv[r as int][c as int]));
                assert forall|i: int, j: int|
                    0 <= i < r && 0 <= j < w implies #[trigger] flat@[i * w + j] == lg[i][j] by {
                    lemma_row_major_index(i, j, r as int, w);
                }
            }
            c = c + 1;
        }
        proof {
            assert((r + 1) * w == r * w + w) by (nonlinear_arith);
        }
        r = r + 1;
    }

    proof {
        assert(flat@.len() == h * w);
        assert(flat@.len() / (w as nat) == h as nat) by {
            vstd::arithmetic::div_mod::lemma_div_multiples_vanish(h, w);
        }
        assert forall|i: int| 0 <= i < h implies rows_of(flat@, w as nat)[i] =~= lg[i] by {
            assert forall|j: int| 0 <= j < w implies Seq::new(
                w as nat,
                |c: int| flat@[i * (w as nat) + c],
            )[j] == lg[i][j] by {
                assert(flat@[i * w + j] == lg[i][j]);
            }
        }
        assert(rows_of(flat@, w as nat) =~= lg);
    }

    let sf = sobel_rows(flat, width, height);
    proof {
        assert(rows_of(sf@, w as nat) == sobel_of(lg));
        assert(sf@.len() / (w as nat) == h as nat) by {
            vstd::arithmetic::div_mod::lemma_div_multiples_vanish(h, w);
        }
        assert(is_grid(sobel_of(lg), w, h));
    }

    let sf_len: usize = sf.len();
    let mut em: Vec<Vec<u16>> = Vec::new();
    let mut r2: usize = 0;
    while r2 < height as usize
        invariant
            sf_len == w * h,
            r2 <= h,
            em@.len() == r2,
            forall|i: int| 0 <= i < r2 ==> (#[trigger] em@[i])@ == sobel_of(lg)[i],
        decreases h - r2,
    {
        let mut row: Vec<u16> = Vec::new();
        let mut c2: usize = 0;
        while c2 < width as usize
            invariant
                r2 < h,
                c2 <= w,
                row@.len() == c2,
                forall|j: int| 0 <= j < c2 ==> #[trigger] row@[j] == sobel_of(lg)[r2 as int][j],
            decreases w - c2,
        {
            proof {
                lemma_row_major_index(r2 as int, c2 as int, h, w);
                assert(r2 * w + c2 < w * h);
            }
            let idx: usize = r2 * (width as usize) + c2;
            row.push(sf[idx]);
            proof {
                assert(sf@[r2 as int * w + c2 as int] == rows_of(sf@, w as nat)[r2 as int][c2 as int]);
            }
            c2 = c2 + 1;
        }
        proof {
            assert(row@ =~= sobel_of(lg)[r2 as int]);
        }
        em.push(row);
        r2 = r2 + 1;
    }

    proof {
        assert(grid_view(em) =~= sobel_of(lg));
    }
    em
}

} // verus!
