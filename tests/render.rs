use mandelbrot::bands::{band_layout, rows_per_band, Band, LayoutError, MAX_BUFFER_LEN};
use mandelbrot::encode::{encode_image, EncodeError};
use mandelbrot::render::{render, shade, ESCAPE_LIMIT};

/// Fills a `width` by `height` buffer band by band, sequentially, with
/// `value(col, row)` taken at the buffer's own coordinates.
fn render_by_bands(width: usize, height: usize, workers: usize, value: fn(usize, usize) -> Option<usize>) -> Vec<u8> {
    let mut pixels = vec![0u8; width * height];
    let bands = band_layout((width, height), workers).unwrap();
    for band in bands {
        let slice = &mut pixels[band.start..band.start + band.len];
        render(slice, (width, band.rows), |col, row| value(col, band.top + row));
    }
    pixels
}

fn pattern(col: usize, row: usize) -> Option<usize> {
    if (col + row) % 5 == 0 {
        None
    } else {
        Some(col * 7 + row * 3)
    }
}

#[test]
fn shade_maps_escape_times_to_gray() {
    assert_eq!(shade(None), 0);
    assert_eq!(shade(Some(0)), 255);
    assert_eq!(shade(Some(1)), 254);
    assert_eq!(shade(Some(200)), 55);
    assert_eq!(shade(Some(254)), 1);
    assert_eq!(shade(Some(255)), 0);
    assert_eq!(shade(Some(1000)), 0);
    assert_eq!(ESCAPE_LIMIT, 255);
}

#[test]
fn render_fills_row_major() {
    let mut pixels = vec![7u8; 6];
    render(&mut pixels, (3, 2), |col, row| Some(col + 10 * row));
    assert_eq!(pixels, vec![255, 254, 253, 245, 244, 243]);
}

#[test]
fn render_of_empty_band_is_a_no_op() {
    let mut pixels: Vec<u8> = Vec::new();
    render(&mut pixels, (5, 0), |_, _| None);
    assert!(pixels.is_empty());
}

#[test]
fn rows_per_band_is_one_more_than_the_quotient() {
    assert_eq!(rows_per_band(750, 8), 94);
    assert_eq!(rows_per_band(8, 8), 2);
    assert_eq!(rows_per_band(3, 8), 1);
    assert_eq!(rows_per_band(0, 1), 1);
}

#[test]
fn band_layout_of_ten_rows_over_eight_workers() {
    let bands = band_layout((4, 10), 8).unwrap();
    assert_eq!(
        bands,
        vec![
            Band { top: 0, rows: 2, start: 0, len: 8 },
            Band { top: 2, rows: 2, start: 8, len: 8 },
            Band { top: 4, rows: 2, start: 16, len: 8 },
            Band { top: 6, rows: 2, start: 24, len: 8 },
            Band { top: 8, rows: 2, start: 32, len: 8 },
        ]
    );
}

#[test]
fn band_layout_last_band_is_shorter() {
    let bands = band_layout((1000, 750), 8).unwrap();
    assert_eq!(bands.len(), 8);
    assert_eq!(bands[7], Band { top: 658, rows: 92, start: 658_000, len: 92_000 });
}

#[test]
fn band_layout_of_empty_image_has_no_band() {
    assert_eq!(band_layout((10, 0), 8), Ok(vec![]));
    let bands = band_layout((0, 3), 2).unwrap();
    assert_eq!(bands.len(), 2);
    assert!(bands.iter().all(|b| b.len == 0));
}

#[test]
fn band_layout_refuses_too_large_buffers() {
    assert_eq!(band_layout((usize::MAX, 2), 8), Err(LayoutError::BufferTooLarge));
    assert_eq!(band_layout((1, MAX_BUFFER_LEN + 1), 8), Err(LayoutError::BufferTooLarge));
    assert_eq!(band_layout((0, usize::MAX), 8), Err(LayoutError::BufferTooLarge));
    assert!(band_layout((1, MAX_BUFFER_LEN), 8).is_ok());
}

#[test]
fn bands_tile_the_buffer_for_every_worker_count() {
    for width in 0..5usize {
        for height in 0..12usize {
            for workers in 1..height + 6 {
                let bands = band_layout((width, height), workers).unwrap();
                assert!(bands.len() <= workers);
                let mut next = 0;
                for band in &bands {
                    assert_eq!(band.start, next);
                    assert_eq!(band.len, band.rows * width);
                    assert!(band.rows > 0);
                    next = band.start + band.len;
                }
                assert_eq!(next, width * height);
            }
        }
    }
}

#[test]
fn one_worker_and_eight_workers_give_the_same_pixels() {
    let single = render_by_bands(13, 17, 1, pattern);
    let eight = render_by_bands(13, 17, 8, pattern);
    let many = render_by_bands(13, 17, 64, pattern);
    assert_eq!(single, eight);
    assert_eq!(single, many);
    let mut whole = vec![0u8; 13 * 17];
    render(&mut whole, (13, 17), pattern);
    assert_eq!(single, whole);
}

#[test]
fn encode_image_checks_the_buffer_size() {
    assert!(matches!(encode_image(&[0u8; 5], (2, 3)), Err(EncodeError::SizeMismatch)));
    assert!(matches!(encode_image(&[], (usize::MAX, 2)), Err(EncodeError::SizeMismatch)));
    assert!(matches!(encode_image(&[], (1usize << 32, 0)), Err(EncodeError::TooLarge)));
}

#[test]
fn encode_image_writes_a_png_file() {
    let pixels: Vec<u8> = (0..12).map(|i| i * 20).collect();
    let bytes = match encode_image(&pixels, (4, 3)) {
        Ok(bytes) => bytes,
        Err(_) => panic!("encoding failed"),
    };
    assert_eq!(&bytes[..8], &[137, 80, 78, 71, 13, 10, 26, 10]);
    assert_eq!(&bytes[12..16], b"IHDR");
    assert_eq!(&bytes[16..24], &[0, 0, 0, 4, 0, 0, 0, 3]);
    assert_eq!(bytes[24], 8);
    assert_eq!(bytes[25], 0);
    assert_ne!(bytes, pixels);
}

#[test]
fn encode_image_passes_on_the_encoder_error_for_zero_dimensions() {
    assert!(matches!(encode_image(&[], (0, 3)), Err(EncodeError::Image(_))));
    assert!(matches!(encode_image(&[], (5, 0)), Err(EncodeError::Image(_))));
}

#[test]
fn encode_image_encodes_a_single_pixel() {
    assert!(encode_image(&[0], (1, 1)).is_ok());
    assert!(encode_image(&[255u8; 6], (6, 1)).is_ok());
}
