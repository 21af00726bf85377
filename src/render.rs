//! The renderer: fills a band of pixels, row by row, with the gray level of
//! each pixel's escape time.

use vstd::prelude::*;

verus! {

/// Iterations after which a point that has not escaped counts as inside.
pub const ESCAPE_LIMIT: usize = 255;

/// Gray level of a pixel: black where the point never escaped, else
/// `255 - min(count, 255)`, so that points that escape sooner are brighter.
pub open spec fn shade_spec(escape: Option<usize>) -> u8 {
    match escape {
        None => 0,
        Some(count) => if count >= 255 {
            0
        } else {
            (255 - count) as u8
        },
    }
}

/// Gray level of a pixel whose escape time is `escape`.
pub fn shade(escape: Option<usize>) -> (r: u8)
    ensures
        r == shade_spec(escape),
{
    match escape {
        None => 0,
        Some(count) => if count >= 255 {
            0
        } else {
            (255 - count) as u8
        },
    }
}

/// Byte of pixel `(col, row)` in a row-major buffer `width` pixels wide.
pub open spec fn pixel_at(pixels: Seq<u8>, width: nat, col: nat, row: nat) -> u8 {
    pixels[(row * width + col) as int]
}

/// `v` is the shade of an escape time that `escape_at` may give for `(col, row)`.
pub open spec fn shaded_from<F: Fn(usize, usize) -> Option<usize>>(
    escape_at: F,
    col: usize,
    row: usize,
    v: u8,
) -> bool {
    exists|e: Option<usize>| #[trigger] escape_at.ensures((col, row), e) && v == shade_spec(e)
}

proof fn lemma_row_major_index(width: int, col: int, row: int, height: int)
    requires
        0 <= col < width,
        0 <= row < height,
    ensures
        0 <= row * width + col < width * height,
        forall|c: int, r: int|
            0 <= c < width && 0 <= r < row ==> #[trigger] (r * width + c) < row * width,
{
    assert(row * width + col < width * height) by (nonlinear_arith)
        requires
            0 <= col < width,
            0 <= row < height,
    ;
    assert(0 <= row * width) by (nonlinear_arith)
        requires
            0 <= row,
            0 <= width,
    ;
    assert forall|c: int, r: int| 0 <= c < width && 0 <= r < row implies #[trigger] (r * width
        + c) < row * width by {
        assert(r * width + c < row * width) by (nonlinear_arith)
            requires
                0 <= c < width,
                0 <= r < row,
        ;
    }
}

/// Fills `pixels`, a row-major buffer of `bounds.0` by `bounds.1` pixels,
/// with the shade of `escape_at(col, row)` for each of its pixels.
pub fn render<F: Fn(usize, usize) -> Option<usize>>(
    pixels: &mut [u8],
    bounds: (usize, usize),
    escape_at: F,
)
    requires
        old(pixels)@.len() == bounds.0 * bounds.1,
        forall|col: usize, row: usize|
            col < bounds.0 && row < bounds.1 ==> #[trigger] escape_at.requires((col, row)),
    ensures
        final(pixels)@.len() == old(pixels)@.len(),
        forall|col: usize, row: usize|
            col < bounds.0 && row < bounds.1 ==> #[trigger] shaded_from(
                escape_at,
                col,
                row,
                pixel_at(final(pixels)@, bounds.0 as nat, col as nat, row as nat),
            ),
{
    let (width, height) = bounds;
    let total = pixels.len();
    let ghost len = pixels@.len();
    let mut row: usize = 0;
    while row < height
        invariant
            pixels@.len() == len,
            len == width * height,
            len == total,
            row <= height,
            forall|col: usize, row: usize|
                col < width && row < height ==> #[trigger] escape_at.requires((col, row)),
            forall|c: usize, r: usize|
                c < width && r < row ==> #[trigger] shaded_from(
                    escape_at,
                    c,
                    r,
                    pixel_at(pixels@, width as nat, c as nat, r as nat),
                ),
        decreases height - row,
    {
        let mut col: usize = 0;
        while col < width
            invariant
                pixels@.len() == len,
                len == width * height,
            len == total,
                row < height,
                col <= width,
                forall|col: usize, row: usize|
                    col < width && row < height ==> #[trigger] escape_at.requires((col, row)),
                forall|c: usize, r: usize|
                    c < width && (r < row || (r == row && c < col)) ==> #[trigger] shaded_from(
                        escape_at,
                        c,
                        r,
                        pixel_at(pixels@, width as nat, c as nat, r as nat),
                    ),
            decreases width - col,
        {
            proof {
                lemma_row_major_index(width as int, col as int, row as int, height as int);
            }
            let idx = row * width + col;
            let escape = escape_at(col, row);
            let ghost before = pixels@;
            pixels[idx] = shade(escape);
            assert forall|c: usize, r: usize|
                c < width && (r < row || (r == row && c <= col)) implies #[trigger] shaded_from(
                escape_at,
                c,
                r,
                pixel_at(pixels@, width as nat, c as nat, r as nat),
            ) by {
                if r == row && c == col {
                    assert(escape_at.ensures((col, row), escape));
                } else {
                    assert(r * width + c != idx);
                    assert(pixel_at(pixels@, width as nat, c as nat, r as nat) == pixel_at(
                        before,
                        width as nat,
                        c as nat,
                        r as nat,
                    ));
                }
            }
            col = col + 1;
        }
        row = row + 1;
    }
}

} // verus!
