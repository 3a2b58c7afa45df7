use holdrect::magnifier::{magnifier_geometry, paint_ring_pixels, ring_contains, BORDER_WIDTH, MAGNIFIER_DIAMETER};

#[test]
fn ring_matches_distance_from_centre() {
    for d in [1i32, 7, 8, 9, 20, 50, 51] {
        let center = d as f64 / 2.0;
        let outer_sq = center * center;
        let inner_sq = (center - BORDER_WIDTH as f64) * (center - BORDER_WIDTH as f64);
        for row in 0..d {
            for col in 0..d {
                let dx = col as f64 - center + 0.5;
                let dy = row as f64 - center + 0.5;
                let dist_sq = dx * dx + dy * dy;
                let expected = dist_sq <= outer_sq && dist_sq > inner_sq;
                assert_eq!(ring_contains(d, col, row), expected, "d={d} col={col} row={row}");
            }
        }
    }
}

#[test]
fn ring_paint_colours_ring_and_clears_the_rest() {
    let d = 20;
    let mut buffer = vec![7u8; (d * d * 4) as usize];
    paint_ring_pixels(&mut buffer, d, |_col, _row| (0, 255, 0));
    let at = |col: i32, row: i32| {
        let off = ((row * d + col) * 4) as usize;
        [buffer[off], buffer[off + 1], buffer[off + 2], buffer[off + 3]]
    };
    assert_eq!(at(0, 10), [0, 255, 0, 255]);
    assert_eq!(at(10, 10), [0, 0, 0, 0]);
    assert_eq!(at(0, 0), [0, 0, 0, 0]);
    assert_eq!(at(19, 9), [0, 255, 0, 255]);
}

#[test]
fn ring_paint_passes_column_and_row() {
    let d = 30;
    let mut buffer = vec![0u8; (d * d * 4) as usize];
    paint_ring_pixels(&mut buffer, d, |col, row| (col as u8, row as u8, 9));
    let off = ((15 * d + 1) * 4) as usize;
    assert_eq!(&buffer[off..off + 4], &[9, 15, 1, 255]);
}

#[test]
fn magnifier_is_centred_on_cursor() {
    let content_d = MAGNIFIER_DIAMETER - BORDER_WIDTH * 2;
    let source = ((content_d as f64) / 2.0).round() as i32;
    assert_eq!(source, 171);
    let (src, host) = magnifier_geometry((500, 400), MAGNIFIER_DIAMETER, source, source);
    assert_eq!(src, (415, 315, 586, 486));
    assert_eq!(host, (325, 225));
}
