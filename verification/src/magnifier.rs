//! The magnifier's round border and where the magnifier sits: which pixels
//! of its square surface form the ring, and the screen area it shows.
use vstd::prelude::*;

verus! {

/// Default magnifier diameter in pixels.
pub const MAGNIFIER_DIAMETER: i32 = 350;

/// Width in pixels of the ring drawn around the magnifier.
pub const BORDER_WIDTH: i32 = 4;

/// Whether pixel `(col, row)` of a square surface `d` pixels wide lies on
/// the ring: its centre lies inside the circle that fills the square and
/// outside the circle `BORDER_WIDTH` pixels smaller in radius. Distances
/// are taken in half-pixel units, so `2 * col - d + 1` is twice the
/// horizontal distance from the pixel's centre to the square's centre.
#[verifier::opaque]
pub open spec fn ring_pixel(d: int, col: int, row: int) -> bool {
    let dx = 2 * col - d + 1;
    let dy = 2 * row - d + 1;
    let inner = d - 2 * BORDER_WIDTH;
    &&& dx * dx + dy * dy <= d * d
    &&& dx * dx + dy * dy > inner * inner
}

/// Whether the pixel with index `p` of a square surface `d` pixels wide
/// lies on the ring.
pub open spec fn ring_index(d: int, p: int) -> bool {
    ring_pixel(d, p % d, p / d)
}

/// Whether pixel `(col, row)` of a square surface `d` pixels wide lies on
/// the magnifier's ring.
pub fn ring_contains(d: i32, col: i32, row: i32) -> (on_ring: bool)
    requires
        0 <= col < d,
        0 <= row < d,
    ensures
        on_ring == ring_pixel(d as int, col as int, row as int),
{
    reveal(ring_pixel);
    let dx: i64 = 2 * col as i64 - d as i64 + 1;
    let dy: i64 = 2 * row as i64 - d as i64 + 1;
    let inner: i64 = d as i64 - 2 * BORDER_WIDTH as i64;
    assert(dx * dx <= 0x4000_0000_0000_0000) by (nonlinear_arith)
        requires
            -0x8000_0000 <= dx <= 0x8000_0000,
    ;
    assert(dy * dy <= 0x4000_0000_0000_0000) by (nonlinear_arith)
        requires
            -0x8000_0000 <= dy <= 0x8000_0000,
    ;
    assert(inner * inner <= 0x4000_0000_0000_0000) by (nonlinear_arith)
        requires
            -0x8000_0000 <= inner <= 0x8000_0000,
    ;
    assert(d as int * d as int <= 0x4000_0000_0000_0000) by (nonlinear_arith)
        requires
            0 < d <= 0x8000_0000,
    ;
    assert(0 <= dx * dx && 0 <= dy * dy && 0 <= inner * inner) by (nonlinear_arith);
    let dist_sq: i128 = (dx * dx) as i128 + (dy * dy) as i128;
    let outer_sq: i128 = (d as i64 * d as i64) as i128;
    let inner_sq: i128 = (inner * inner) as i128;
    dist_sq <= outer_sq && dist_sq > inner_sq
}

/// Paints the magnifier's ring into a BGRA buffer for a square surface `d`
/// pixels wide: every pixel on the ring becomes opaque in the colour that
/// `color_at` gives for its column and row, every other pixel fully
/// transparent.
pub fn paint_ring_pixels<F: Fn(i32, i32) -> (u8, u8, u8)>(buffer: &mut Vec<u8>, d: i32, color_at: F)
    requires
        forall|col: i32, row: i32| #[trigger] color_at.requires((col, row)),
        d > 0,
        old(buffer)@.len() == d * d * 4,
    ensures
        final(buffer)@.len() == old(buffer)@.len(),
        forall|i: int|
            0 <= i < final(buffer)@.len() && !ring_index(d as int, i / 4)
                ==> #[trigger] final(buffer)@[i] == 0,
        forall|p: int|
            0 <= p < d * d && #[trigger] ring_index(d as int, p) ==> {
                &&& final(buffer)@[4 * p + 3] == 255
                &&& color_at.ensures(
                    ((p % (d as int)) as i32, (p / (d as int)) as i32),
                    (final(buffer)@[4 * p + 2], final(buffer)@[4 * p + 1], final(buffer)@[4 * p]),
                )
            },
{
    let ghost w = d as int;
    let len: usize = buffer.len();
    let n: usize = len / 4;
    assert(n == w * w);
    let mut p: usize = 0;
    let mut col: i32 = 0;
    let mut row: i32 = 0;
    while p < n
        invariant
            forall|col: i32, row: i32| #[trigger] color_at.requires((col, row)),
            w == d,
            d > 0,
            n == w * w,
            len == n * 4,
            buffer@.len() == len,
            p <= n,
            0 <= col < d,
            0 <= row,
            p == row * w + col,
            p < n ==> row < d,
            forall|i: int|
                0 <= i < p * 4 && !ring_index(w, i / 4) ==> #[trigger] buffer@[i] == 0,
            forall|q: int|
                0 <= q < p && #[trigger] ring_index(w, q) ==> {
                    &&& buffer@[4 * q + 3] == 255
                    &&& color_at.ensures(
                        ((q % w) as i32, (q / w) as i32),
                        (buffer@[4 * q + 2], buffer@[4 * q + 1], buffer@[4 * q]),
                    )
                },
        decreases n - p,
    {
        proof {
            lemma_index_of(w, col as int, row as int);
        }
        let off: usize = p * 4;
        if ring_contains(d, col, row) {
            let (r, g, b) = color_at(col, row);
            buffer.set(off, b);
            buffer.set(off + 1, g);
            buffer.set(off + 2, r);
            buffer.set(off + 3, 255);
        } else {
            buffer.set(off, 0);
            buffer.set(off + 1, 0);
            buffer.set(off + 2, 0);
            buffer.set(off + 3, 0);
        }
        proof {
            assert forall|i: int|
                0 <= i < (p + 1) * 4 && !ring_index(w, i / 4) implies #[trigger] buffer@[i]
                == 0 by {
                if i >= p * 4 {
                    assert(i / 4 == p);
                }
            }
        }
        p = p + 1;
        col = col + 1;
        if col == d {
            proof {
                assert((row as int + 1) * w == row * w + w) by (nonlinear_arith);
                assert(p < n ==> row + 1 < w) by (nonlinear_arith)
                    requires
                        p == (row + 1) * w,
                        w > 0,
                        n == w * w,
                ;
            }
            col = 0;
            row = row + 1;
        }
    }
}

/// Pixel `(col, row)` of a surface `w` pixels wide has index
/// `row * w + col`, and the index gives the column and row back.
proof fn lemma_index_of(w: int, col: int, row: int)
    requires
        w > 0,
        0 <= col < w,
        0 <= row,
    ensures
        (row * w + col) % w == col,
        (row * w + col) / w == row,
        row * w + col >= 0,
{
    assert((row * w + col) % w == col) by (nonlinear_arith)
        requires
            w > 0,
            0 <= col < w,
            0 <= row,
    ;
    assert((row * w + col) / w == row) by (nonlinear_arith)
        requires
            w > 0,
            0 <= col < w,
            0 <= row,
    ;
    assert(row * w + col >= 0) by (nonlinear_arith)
        requires
            w > 0,
            0 <= col,
            0 <= row,
    ;
}

/// Where the magnifier goes for a cursor at `cursor_pos`: the screen area
/// it shows, `(left, top, right, bottom)`, `source_w` by `source_h` pixels
/// centred on the cursor; and the top-left corner of its window, `diameter`
/// pixels wide and centred on the cursor.
pub fn magnifier_geometry(cursor_pos: (i32, i32), diameter: i32, source_w: i32, source_h: i32) -> (geometry:
    ((i32, i32, i32, i32), (i32, i32)))
    requires
        0 <= source_w,
        0 <= source_h,
        0 <= diameter,
        i32::MIN <= cursor_pos.0 - source_w / 2,
        cursor_pos.0 - source_w / 2 + source_w <= i32::MAX,
        i32::MIN <= cursor_pos.1 - source_h / 2,
        cursor_pos.1 - source_h / 2 + source_h <= i32::MAX,
        i32::MIN <= cursor_pos.0 - diameter / 2,
        i32::MIN <= cursor_pos.1 - diameter / 2,
    ensures
        geometry.0 == (
            (cursor_pos.0 - source_w / 2) as i32,
            (cursor_pos.1 - source_h / 2) as i32,
            (cursor_pos.0 - source_w / 2 + source_w) as i32,
            (cursor_pos.1 - source_h / 2 + source_h) as i32,
        ),
        geometry.1 == ((cursor_pos.0 - diameter / 2) as i32, (cursor_pos.1 - diameter / 2) as i32),
{
    let left = cursor_pos.0 - source_w / 2;
    let top = cursor_pos.1 - source_h / 2;
    let r = diameter / 2;
    ((left, top, left + source_w, top + source_h), (cursor_pos.0 - r, cursor_pos.1 - r))
}

} // verus!
