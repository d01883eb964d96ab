//! Viewport snapshots that identify which tile is wanted.
use vstd::prelude::*;

verus! {

/// Errors raised by the tile computation core.
#[derive(Clone, Copy, Debug, PartialEq, Eq, Structural)]
pub enum TileError {
    /// The pixel width or height is not positive.
    InvalidTileSpecification,
    /// Some row result is missing, duplicated or malformed, so no tile is built.
    RowComputationFault,
}

/// A value snapshot of a viewport at request time.
///
/// Pixel dimensions are exact integers; the centre and zoom are carried as the
/// IEEE-754 bit patterns of the host's double-precision values, so that
/// equality of two specifications is exact and structural.
#[derive(Clone, Copy, Debug, PartialEq, Eq, Structural)]
pub struct TileSpecification {
    pub pixel_width: i32,
    pub pixel_height: i32,
    pub center_x_bits: u64,
    pub center_y_bits: u64,
    pub zoom_bits: u64,
}

impl TileSpecification {
    /// Both pixel dimensions are positive.
    pub open spec fn wf(&self) -> bool {
        self.pixel_width > 0 && self.pixel_height > 0
    }

    /// Number of pixels, hence of entries, of a tile for this specification.
    pub open spec fn pixel_count(&self) -> int {
        self.pixel_width * self.pixel_height
    }

    /// Builds a specification, rejecting non-positive pixel dimensions.
    pub fn new(
        pixel_width: i32,
        pixel_height: i32,
        center_x_bits: u64,
        center_y_bits: u64,
        zoom_bits: u64,
    ) -> (r: Result<TileSpecification, TileError>)
        ensures
            pixel_width > 0 && pixel_height > 0 ==> r == Ok::<TileSpecification, TileError>(
                (TileSpecification {
                    pixel_width,
                    pixel_height,
                    center_x_bits,
                    center_y_bits,
                    zoom_bits,
                }),
            ),
            !(pixel_width > 0 && pixel_height > 0) ==> r == Err::<TileSpecification, TileError>(
                TileError::InvalidTileSpecification,
            ),
    {
        let s = TileSpecification { pixel_width, pixel_height, center_x_bits, center_y_bits, zoom_bits };
        if s.is_valid() {
            Ok(s)
        } else {
            Err(TileError::InvalidTileSpecification)
        }
    }

    /// Whether both pixel dimensions are positive.
    pub fn is_valid(&self) -> (r: bool)
        ensures
            r == self.wf(),
    {
        self.pixel_width > 0 && self.pixel_height > 0
    }
}

} // verus!
