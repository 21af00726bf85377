//! Partition of a row-major pixel buffer into horizontal bands of whole rows,
//! one band for each worker at most.

use vstd::arithmetic::div_mod::{lemma_fundamental_div_mod, lemma_mod_pos_bound};
use vstd::prelude::*;

verus! {

/// The largest buffer that can be allocated: `isize::MAX` bytes.
pub const MAX_BUFFER_LEN: usize = isize::MAX as usize;

/// Rows in every band but the last: one more than `height / workers`.
pub open spec fn band_height(height: nat, workers: nat) -> nat
    recommends
        workers > 0,
{
    height / workers + 1
}

/// Number of bands: `height` divided by the band height, rounded up.
pub open spec fn band_count(height: nat, workers: nat) -> nat
    recommends
        workers > 0,
{
    let b = band_height(height, workers);
    ((height + b - 1) as nat) / b
}

/// First row of band `i`.
pub open spec fn band_top(height: nat, workers: nat, i: nat) -> nat {
    i * band_height(height, workers)
}

/// Rows of band `i`: the band height, or what is left of the image below its top.
pub open spec fn band_rows(height: nat, workers: nat, i: nat) -> nat {
    let b = band_height(height, workers);
    let top = band_top(height, workers, i);
    if top + b <= height {
        b
    } else if top <= height {
        (height - top) as nat
    } else {
        0
    }
}

/// Offset of band `i` in the buffer.
pub open spec fn band_start(width: nat, height: nat, workers: nat, i: nat) -> nat {
    band_top(height, workers, i) * width
}

/// Bytes of band `i`.
pub open spec fn band_len(width: nat, height: nat, workers: nat, i: nat) -> nat {
    band_rows(height, workers, i) * width
}

/// Byte `k` of the buffer lies in band `i`.
pub open spec fn band_holds(width: nat, height: nat, workers: nat, i: nat, k: int) -> bool {
    band_start(width, height, workers, i) <= k < band_start(width, height, workers, i) + band_len(
        width,
        height,
        workers,
        i,
    )
}

/// Byte `k` of the buffer lies in one of the bands.
pub open spec fn in_some_band(width: nat, height: nat, workers: nat, k: int) -> bool {
    exists|i: nat| i < band_count(height, workers) && #[trigger] band_holds(width, height, workers, i, k)
}

/// One band: its rows `[top, top + rows)` and its bytes `[start, start + len)`.
#[derive(Clone, Copy, Debug, PartialEq, Eq, Structural)]
pub struct Band {
    pub top: usize,
    pub rows: usize,
    pub start: usize,
    pub len: usize,
}

/// Why a buffer cannot be laid out.
#[derive(Clone, Copy, Debug, PartialEq, Eq, Structural)]
pub enum LayoutError {
    /// `width * height` bytes exceed what can be allocated.
    BufferTooLarge,
}

/// `b` is band `i` of the layout of a `width` by `height` buffer over `workers` workers.
pub open spec fn is_band(b: Band, width: nat, height: nat, workers: nat, i: nat) -> bool {
    &&& b.top == band_top(height, workers, i)
    &&& b.rows == band_rows(height, workers, i)
    &&& b.start == band_start(width, height, workers, i)
    &&& b.len == band_len(width, height, workers, i)
}

/// Rows in every band but the last, for `workers` workers.
pub fn rows_per_band(height: usize, workers: usize) -> (r: usize)
    requires
        workers > 0,
        height <= MAX_BUFFER_LEN,
    ensures
        r == band_height(height as nat, workers as nat),
{
    height / workers + 1
}

proof fn lemma_count_from_bounds(height: nat, b: nat, k: nat)
    requires
        b > 0,
        k * b >= height,
        k == 0 || (k - 1) * b < height,
    ensures
        k == ((height + b - 1) as nat) / b,
{
    let x = (height + b - 1) as nat;
    lemma_fundamental_div_mod(x as int, b as int);
    let q = x / b;
    let r = x % b;
    assert(k == q) by (nonlinear_arith)
        requires
            b > 0,
            k * b >= height,
            k == 0 || (k - 1) * b < height,
            x == height + b - 1,
            x == b * q + r,
            0 <= r < b,
    ;
}

/// Lays out a `width` by `height` buffer in horizontal bands for `workers`
/// workers: the bands follow one another from the top, each as high as
/// `rows_per_band` but the last, which holds the rows that are left.
pub fn band_layout(bounds: (usize, usize), workers: usize) -> (r: Result<Vec<Band>, LayoutError>)
    requires
        workers > 0,
    ensures
        r is Err <==> bounds.0 * bounds.1 > MAX_BUFFER_LEN || bounds.1 > MAX_BUFFER_LEN,
        r matches Ok(bands) ==> {
            &&& bands.len() == band_count(bounds.1 as nat, workers as nat)
            &&& forall|i: int|
                0 <= i < bands.len() ==> is_band(
                    #[trigger] bands[i],
                    bounds.0 as nat,
                    bounds.1 as nat,
                    workers as nat,
                    i as nat,
                )
        },
{
    let (width, height) = bounds;
    match width.checked_mul(height) {
        None => {
            return Err(LayoutError::BufferTooLarge);
        },
        Some(total) => {
            if total > MAX_BUFFER_LEN || height > MAX_BUFFER_LEN {
                return Err(LayoutError::BufferTooLarge);
            }
        },
    }
    let ghost (w, h, n) = (width as nat, height as nat, workers as nat);
    let per_band = rows_per_band(height, workers);
    let mut bands: Vec<Band> = Vec::new();
    let mut top: usize = 0;
    assert(bands.len() == 0);
    assert(0 * per_band == 0) by (nonlinear_arith);
    while top < height
        invariant
            0 < per_band,
            n > 0,
            per_band == band_height(h, n),
            width == w,
            height == h,
            w * h <= MAX_BUFFER_LEN,
            top <= height,
            top < height ==> top == bands.len() * per_band,
            top == height ==> bands.len() * per_band >= height,
            bands.len() == 0 || (bands.len() - 1) * per_band < height,
            forall|i: int|
                0 <= i < bands.len() ==> is_band(#[trigger] bands[i], w, h, n, i as nat),
        decreases height - top,
    {
        let ghost i = bands.len() as nat;
        let rows = if height - top < per_band {
            height - top
        } else {
            per_band
        };
        assert(top * width + rows * width == (top + rows) * width) by (nonlinear_arith);
        assert((top + rows) * width <= height * width) by (nonlinear_arith)
            requires
                top + rows <= height,
        ;
        assert(height * width == w * h) by (nonlinear_arith)
            requires
                height == h,
                width == w,
        ;
        let band = Band { top, rows, start: top * width, len: rows * width };
        proof {
            assert(band_top(h, n, i) == top);
            assert(band_rows(h, n, i) == rows);
        }
        bands.push(band);
        assert((i + 1) * per_band == i * per_band + per_band) by (nonlinear_arith);
        top = top + rows;
    }
    proof {
        lemma_count_from_bounds(h, per_band as nat, bands.len() as nat);
    }
    Ok(bands)
}

/// The band count and band height bound each other: the bands reach the
/// last row, and each of them starts above it.
proof fn lemma_count_bounds(height: nat, workers: nat)
    requires
        workers > 0,
    ensures
        band_height(height, workers) > 0,
        band_count(height, workers) * band_height(height, workers) >= height,
        band_count(height, workers) <= workers,
        forall|i: nat|
            i < band_count(height, workers) ==> #[trigger] band_top(height, workers, i) < height,
{
    let b = band_height(height, workers);
    let c = band_count(height, workers);
    let x = (height + b - 1) as nat;
    lemma_fundamental_div_mod(height as int, workers as int);
    lemma_mod_pos_bound(height as int, workers as int);
    lemma_fundamental_div_mod(x as int, b as int);
    lemma_mod_pos_bound(x as int, b as int);
    let q = height / workers;
    let r = height % workers;
    assert(height < workers * b) by (nonlinear_arith)
        requires
            height == workers * q + r,
            r < workers,
            b == q + 1,
    ;
    let rx = x % b;
    assert(c * b >= height && c <= workers && (c == 0 || (c - 1) * b < height))
        by (nonlinear_arith)
        requires
            x == b * c + rx,
            0 <= rx < b,
            x == height + b - 1,
            height < workers * b,
            b > 0,
    ;
    assert forall|i: nat| i < c implies #[trigger] band_top(height, workers, i) < height by {
        assert(i * b < height) by (nonlinear_arith)
            requires
                i < c,
                c == 0 || (c - 1) * b < height,
                b > 0,
        ;
    }
}

/// For every worker count, a layout has no more bands than workers, and its
/// bands tile the buffer: each lies inside it, each ends before the next one
/// starts, and every byte of the buffer lies in one of them.
pub proof fn lemma_bands_tile_buffer(width: nat, height: nat, workers: nat)
    requires
        workers > 0,
    ensures
        band_count(height, workers) <= workers,
        forall|i: nat|
            i < band_count(height, workers) ==> #[trigger] band_start(width, height, workers, i)
                + band_len(width, height, workers, i) <= width * height,
        forall|i: nat, j: nat|
            i < j < band_count(height, workers) ==> #[trigger] band_start(
                width,
                height,
                workers,
                i,
            ) + band_len(width, height, workers, i) <= #[trigger] band_start(
                width,
                height,
                workers,
                j,
            ),
        forall|k: int| 0 <= k < width * height ==> #[trigger] in_some_band(width, height, workers, k),
{
    lemma_count_bounds(height, workers);
    let b = band_height(height, workers);
    let c = band_count(height, workers);
    assert forall|i: nat| i < c implies #[trigger] band_start(width, height, workers, i)
        + band_len(width, height, workers, i) <= width * height by {
        let top = band_top(height, workers, i);
        let rows = band_rows(height, workers, i);
        assert(top < height);
        assert(top * width + rows * width <= width * height) by (nonlinear_arith)
            requires
                top + rows <= height,
        ;
    }
    assert forall|i: nat, j: nat| i < j < c implies #[trigger] band_start(
        width,
        height,
        workers,
        i,
    ) + band_len(width, height, workers, i) <= #[trigger] band_start(
        width,
        height,
        workers,
        j,
    ) by {
        let rows = band_rows(height, workers, i);
        assert(i * b * width + rows * width <= j * b * width) by (nonlinear_arith)
            requires
                i < j,
                rows <= b,
        ;
    }
    assert forall|k: int| 0 <= k < width * height implies #[trigger] in_some_band(
        width,
        height,
        workers,
        k,
    ) by {
        lemma_fundamental_div_mod(k, width as int);
        lemma_mod_pos_bound(k, width as int);
        let row = k / width as int;
        let col = k % width as int;
        assert(row < height) by (nonlinear_arith)
            requires
                k == width * row + col,
                0 <= col,
                k < width * height,
        ;
        lemma_fundamental_div_mod(row, b as int);
        lemma_mod_pos_bound(row, b as int);
        let i = (row / b as int) as nat;
        let off = row % b as int;
        let top = band_top(height, workers, i);
        let rows = band_rows(height, workers, i);
        assert(top <= row < top + rows);
        assert(i < c) by (nonlinear_arith)
            requires
                i * b <= row,
                row < height,
                height <= c * b,
                b > 0,
        ;
        assert(top * width <= k < top * width + rows * width) by (nonlinear_arith)
            requires
                k == width * row + col,
                0 <= col < width,
                top <= row < top + rows,
        ;
        assert(band_holds(width, height, workers, i, k));
    }
}

/// A band's pixel `(col, row)` is the buffer's pixel `(col, top + row)`: the
/// byte that a band renders at its own row-major offset is the byte that a
/// single band over the whole buffer renders for the same pixel, whatever
/// the worker count.
pub proof fn lemma_band_pixel_is_buffer_pixel(
    width: nat,
    height: nat,
    workers: nat,
    i: nat,
    col: nat,
    row: nat,
)
    requires
        workers > 0,
        i < band_count(height, workers),
        col < width,
        row < band_rows(height, workers, i),
    ensures
        band_start(width, height, workers, i) + row * width + col == (band_top(height, workers, i)
            + row) * width + col,
        (band_top(height, workers, i) + row) < height,
        band_start(width, height, workers, i) + row * width + col < band_start(
            width,
            height,
            workers,
            i,
        ) + band_len(width, height, workers, i),
{
    lemma_count_bounds(height, workers);
    let top = band_top(height, workers, i);
    let rows = band_rows(height, workers, i);
    assert(top < height);
    assert(top * width + row * width == (top + row) * width) by (nonlinear_arith);
    assert(row * width + col < rows * width) by (nonlinear_arith)
        requires
            row < rows,
            col < width,
    ;
}

} // verus!
