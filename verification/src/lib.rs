//! Content-aware image width reduction (seam carving).
//!
//! The library repeatedly finds and deletes the lowest-importance vertical
//! path of pixels through a raster until the requested fraction of the width
//! has been removed.  A raster is a rectangular grid of RGB pixels; its
//! importance map is the Sobel gradient magnitude of its luma image; the
//! minimal vertical path is found by dynamic programming over a cumulative
//! energy table and removed one pixel per row.

use vstd::prelude::*;

pub mod carve;
pub mod cumulative;
pub mod energy;
pub mod grid;
pub mod seam;

pub use carve::OpenImage;

verus! {

/// Why an operation on a raster is refused.
#[derive(Clone, Copy, Debug, PartialEq, Eq, Structural)]
pub enum CarveError {
    /// The reduction fraction is over 100, or the raster is missing,
    /// ragged, too large for 32-bit dimensions, or below the carving floor.
    InvalidInput,
}

/// What a carving run needs: the image location and the percentage of the
/// width to remove.
#[derive(Debug)]
pub struct Config {
    pub img_path: String,
    pub reduce_by: u32,
}

impl Config {
    /// Accepts a reduction percentage in 0..=100 and refuses anything above.
    pub fn new(img_path: String, reduce_by: u32) -> (res: Result<Config, CarveError>)
        ensures
            res is Ok <==> reduce_by <= 100,
            res matches Ok(c) ==> c.img_path@ == img_path@ && c.reduce_by == reduce_by,
            res matches Err(e) ==> e == CarveError::InvalidInput,
    {
        if reduce_by <= 100 {
            Ok(Config { img_path, reduce_by })
        } else {
            Err(CarveError::InvalidInput)
        }
    }
}

} // verus!
