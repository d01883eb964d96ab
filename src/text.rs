//! The character-grid rendering of a tile: iteration counts bucketed into
//! symbols by half-open ranges.
use vstd::prelude::*;
use crate::gather::Tile;

verus! {

/// `0` is blank, `1..64` is `+`, `64..128` is `*`, `128..255` is `#`, and
/// anything from `255` up is `X`.
pub open spec fn symbol_of(count: u32) -> char {
    if count == 0 {
        ' '
    } else if count < 64 {
        '+'
    } else if count < 128 {
        '*'
    } else if count < 255 {
        '#'
    } else {
        'X'
    }
}

/// The symbol that stands for an iteration count.
pub fn count_symbol(count: u32) -> (r: char)
    ensures
        r == symbol_of(count),
{
    if count == 0 {
        ' '
    } else if count < 64 {
        '+'
    } else if count < 128 {
        '*'
    } else if count < 255 {
        '#'
    } else {
        'X'
    }
}

/// The tile as rows of symbols, one per pixel, top row first.
pub fn text_rows(tile: &Tile) -> (r: Vec<Vec<char>>)
    ensures
        r@.len() == tile@.specification.pixel_height,
        forall|y: int|
            0 <= y < r@.len() ==> (#[trigger] r@[y])@.len() == tile@.specification.pixel_width,
        forall|y: int, x: int|
            0 <= y < tile@.specification.pixel_height && 0 <= x < tile@.specification.pixel_width
                ==> #[trigger] r@[y]@[x] == symbol_of(
                tile@.counts[y * tile@.specification.pixel_width + x],
            ),
{
    let spec = tile.specification();
    let counts = tile.counts();
    let w = spec.pixel_width as usize;
    let h = spec.pixel_height as usize;
    let n = counts.len();
    let mut rows: Vec<Vec<char>> = Vec::new();
    let mut i: usize = 0;
    let mut y: usize = 0;
    while y < h
        invariant
            tile@.wf(),
            spec == tile@.specification,
            counts@ == tile@.counts,
            n == counts@.len(),
            w == spec.pixel_width,
            h == spec.pixel_height,
            y <= h,
            i == y * w,
            rows@.len() == y,
            forall|r: int| 0 <= r < y ==> (#[trigger] rows@[r])@.len() == w,
            forall|r: int, x: int|
                0 <= r < y && 0 <= x < w ==> #[trigger] rows@[r]@[x] == symbol_of(
                    counts@[r * w + x],
                ),
        decreases h - y,
    {
        let mut row: Vec<char> = Vec::new();
        let mut x: usize = 0;
        while x < w
            invariant
                tile@.wf(),
                spec == tile@.specification,
                counts@ == tile@.counts,
                n == counts@.len(),
            n == counts@.len(),
                w == spec.pixel_width,
                h == spec.pixel_height,
                y < h,
                x <= w,
                i == y * w + x,
                row@.len() == x,
                forall|c: int| 0 <= c < x ==> row@[c] == symbol_of(counts@[y * w + c]),
            decreases w - x,
        {
            proof {
                assert(y * w + x < w * h) by (nonlinear_arith)
                    requires
                        y < h,
                        x < w,
                ;
            }
            row.push(count_symbol(counts[i]));
            i = i + 1;
            x = x + 1;
        }
        proof {
            assert((y + 1) * w == y * w + w) by (nonlinear_arith);
        }
        rows.push(row);
        y = y + 1;
    }
    rows
}

} // verus!
