//! Pure pieces of the overlay: when it is shown, how often it is raised, and
//! the pixels that the border and the spotlight dimming put in a BGRA buffer.
use vstd::prelude::*;
use crate::cli::CliCommand;
use crate::state::{max_i32, min_i32, normalize_rect, DrawingState};

verus! {

/// Whether the overlay should be visible: while drawing, or while pinned
/// rectangles remain.
pub fn should_show_overlay(has_drawing: bool, has_pinned: bool) -> (show: bool)
    ensures
        show == (has_drawing || has_pinned),
{
    has_drawing || has_pinned
}

/// The number of frames, among the first `n`, in which the overlay is visible.
pub open spec fn visible_frames(frames: Seq<(bool, bool)>, n: int) -> int
    decreases n,
{
    if n <= 0 {
        0
    } else {
        visible_frames(frames, n - 1) + if frames[n - 1].0 || frames[n - 1].1 {
            1int
        } else {
            0int
        }
    }
}

proof fn lemma_visible_frames_bound(frames: Seq<(bool, bool)>, n: int)
    requires
        0 <= n,
    ensures
        0 <= visible_frames(frames, n) <= n,
    decreases n,
{
    if n > 0 {
        lemma_visible_frames_bound(frames, n - 1);
    }
}

/// How many times the overlay is raised to the top over a run of frames,
/// each frame given as (drawing, pinned): once in every visible frame, so
/// that a window that took the top spot cannot hide the overlay for long.
pub fn topmost_enforce_count(frames: &[(bool, bool)]) -> (count: usize)
    ensures
        count == visible_frames(frames@, frames@.len() as int),
        count <= frames@.len(),
{
    let mut count: usize = 0;
    let mut i: usize = 0;
    while i < frames.len()
        invariant
            i <= frames@.len(),
            count == visible_frames(frames@, i as int),
        decreases frames@.len() - i,
    {
        proof {
            lemma_visible_frames_bound(frames@, i as int);
        }
        let (has_drawing, has_pinned) = frames[i];
        if should_show_overlay(has_drawing, has_pinned) {
            count = count + 1;
        }
        i = i + 1;
    }
    proof {
        lemma_visible_frames_bound(frames@, i as int);
    }
    count
}

/// `v` limited to the range from `lo` to `hi`.
pub open spec fn clamp_int(v: int, lo: int, hi: int) -> int {
    if v < lo {
        lo
    } else if v > hi {
        hi
    } else {
        v
    }
}

/// The bounds `(left, top, right, bottom)` of a spotlight rectangle, given in
/// screen coordinates, moved into the window and held inside it.
pub open spec fn spot_bounds(
    r: (i32, i32, i32, i32),
    win_x: i32,
    win_y: i32,
    width: i32,
    height: i32,
) -> (int, int, int, int) {
    (
        clamp_int(r.0 - win_x, 0, width - 1),
        clamp_int(r.1 - win_y, 0, height - 1),
        clamp_int(r.2 - win_x, 0, width - 1),
        clamp_int(r.3 - win_y, 0, height - 1),
    )
}

/// Whether the spotlight rectangle `r` `(x0, y0, x1, y1)`, in screen
/// coordinates, contains pixel `(px, py)` of a window at `(win_x, win_y)`:
/// the pixel's screen position lies from `x0` to `x1` and from `y0` to
/// `y1`, edges included. A rectangle whose corners are out of order
/// contains nothing.
pub open spec fn spot_covers(r: (i32, i32, i32, i32), win_x: i32, win_y: i32, px: int, py: int) -> bool {
    r.0 <= px + win_x <= r.2 && r.1 <= py + win_y <= r.3
}

/// Whether one of the first `n` spotlight rectangles contains the pixel.
pub open spec fn spot_lit(
    rects: Seq<(i32, i32, i32, i32)>,
    n: int,
    win_x: i32,
    win_y: i32,
    px: int,
    py: int,
) -> bool
    decreases n,
{
    if n <= 0 {
        false
    } else {
        spot_lit(rects, n - 1, win_x, win_y, px, py) || spot_covers(rects[n - 1], win_x, win_y, px, py)
    }
}

/// The byte of the dimming colour (BGRA black at alpha 160) at buffer index `i`.
pub open spec fn dim_byte(i: int) -> u8 {
    if i % 4 == 3 {
        160
    } else {
        0
    }
}

/// Whether the spotlight rectangles can be cleared in a buffer of `len`
/// bytes: the buffer holds the window's pixels exactly, and moving each
/// rectangle into the window fits in 32 bits.
pub open spec fn spotlights_fit(
    len: int,
    width: i32,
    height: i32,
    rects: Seq<(i32, i32, i32, i32)>,
    win_x: i32,
    win_y: i32,
) -> bool {
    &&& len == width * height * 4
    &&& forall|k: int|
        0 <= k < rects.len() ==> {
            let r = #[trigger] rects[k];
            &&& i32::MIN <= r.0 - win_x <= i32::MAX
            &&& i32::MIN <= r.1 - win_y <= i32::MAX
            &&& i32::MIN <= r.2 - win_x <= i32::MAX
            &&& i32::MIN <= r.3 - win_y <= i32::MAX
        }
}

/// The byte that dimming leaves at index `i` of the buffer of a window
/// `width` pixels wide: fully transparent inside a spotlight, the dimming
/// colour everywhere else.
pub open spec fn dimmed_buffer_byte(
    i: int,
    width: i32,
    rects: Seq<(i32, i32, i32, i32)>,
    win_x: i32,
    win_y: i32,
) -> u8 {
    if spot_lit(rects, rects.len() as int, win_x, win_y, (i / 4) % (width as int), (i / 4) / (width as int)) {
        0
    } else {
        dim_byte(i)
    }
}

/// Inside the window, a spotlight that meets the window contains exactly
/// the pixels of its bounds held in the window; one that misses the window
/// contains none of its pixels.
proof fn lemma_spot_bounds(r: (i32, i32, i32, i32), win_x: i32, win_y: i32, width: i32, height: i32, px: int, py: int)
    requires
        0 <= px < width,
        0 <= py < height,
    ensures
        ({
            let b = spot_bounds(r, win_x, win_y, width, height);
            let meets = r.0 <= r.2 && r.1 <= r.3 && r.0 - win_x <= width - 1 && r.2 - win_x >= 0
                && r.1 - win_y <= height - 1 && r.3 - win_y >= 0;
            &&& meets ==> (spot_covers(r, win_x, win_y, px, py) == (b.0 <= px <= b.2 && b.1 <= py
                <= b.3))
            &&& !meets ==> !spot_covers(r, win_x, win_y, px, py)
        }),
{
}

/// Pixel `x`, `y` of a buffer `width` pixels wide starts at byte
/// `(y * width + x) * 4`, and every byte of it maps back to that pixel.
proof fn lemma_pixel_index(width: int, x: int, y: int, c: int)
    requires
        width > 0,
        0 <= x < width,
        0 <= y,
        0 <= c < 4,
    ensures
        ((y * width + x) * 4 + c) / 4 == y * width + x,
        ((y * width + x) * 4 + c) % 4 == c,
        (y * width + x) % width == x,
        (y * width + x) / width == y,
{
    assert(((y * width + x) * 4 + c) / 4 == y * width + x) by (nonlinear_arith)
        requires
            0 <= c < 4,
            y * width + x >= 0,
    ;
    assert(((y * width + x) * 4 + c) % 4 == c) by (nonlinear_arith)
        requires
            0 <= c < 4,
            y * width + x >= 0,
    ;
    assert((y * width + x) % width == x) by (nonlinear_arith)
        requires
            width > 0,
            0 <= x < width,
            0 <= y,
    ;
    assert((y * width + x) / width == y) by (nonlinear_arith)
        requires
            width > 0,
            0 <= x < width,
            0 <= y,
    ;
}

/// A pixel index is determined by its column and row.
proof fn lemma_pixel_from_coords(width: int, p: int)
    requires
        width > 0,
        p >= 0,
    ensures
        p == (p / width) * width + p % width,
        0 <= p % width < width,
        p / width >= 0,
{
    assert(p == (p / width) * width + p % width) by (nonlinear_arith)
        requires
            width > 0,
    ;
    assert(0 <= p % width < width) by (nonlinear_arith)
        requires
            width > 0,
    ;
    assert(p / width >= 0) by (nonlinear_arith)
        requires
            width > 0,
            p >= 0,
    ;
}

/// Dims every pixel outside the given spotlight rectangles. `rects` are
/// (x0, y0, x1, y1) in screen coordinates; the pixels inside each, edges
/// included, are cleared to transparent, and every other pixel is dimmed to
/// black at alpha 160. With no rectangles, or an empty window, the buffer is
/// left as it is.
pub fn dim_outside_spotlights(
    buffer: &mut Vec<u8>,
    width: i32,
    height: i32,
    rects: &[(i32, i32, i32, i32)],
    win_x: i32,
    win_y: i32,
)
    requires
        (rects@.len() > 0 && width > 0 && height > 0) ==> spotlights_fit(
            old(buffer)@.len() as int,
            width,
            height,
            rects@,
            win_x,
            win_y,
        ),
    ensures
        final(buffer)@.len() == old(buffer)@.len(),
        (rects@.len() == 0 || width <= 0 || height <= 0) ==> final(buffer)@ == old(buffer)@,
        (rects@.len() > 0 && width > 0 && height > 0) ==> forall|i: int|
            0 <= i < final(buffer)@.len() ==> #[trigger] final(buffer)@[i] == dimmed_buffer_byte(
                i,
                width,
                rects@,
                win_x,
                win_y,
            ),
{
    if rects.len() == 0 || width <= 0 || height <= 0 {
        return;
    }
    let ghost len = buffer@.len() as int;
    let ghost w = width as int;
    let ghost h = height as int;
    let ghost rs = rects@;
    let n = buffer.len();
    let chunks = n / 4;
    assert(chunks * 4 == n);
    let mut c: usize = 0;
    while c < chunks
        invariant
            n == buffer@.len(),
            chunks * 4 == n,
            c <= chunks,
            forall|i: int| 0 <= i < c * 4 ==> #[trigger] buffer@[i] == dim_byte(i),
        decreases chunks - c,
    {
        let base = c * 4;
        buffer[base] = 0;
        buffer[base + 1] = 0;
        buffer[base + 2] = 0;
        buffer[base + 3] = 160;
        c = c + 1;
    }
    assert(width * 4 <= width * height * 4) by (nonlinear_arith)
        requires
            width > 0,
            height > 0,
    ;
    let stride: usize = width as usize * 4;
    let mut j: usize = 0;
    while j < rects.len()
        invariant
            n == buffer@.len(),
            len == n,
            w == width,
            h == height,
            width > 0,
            height > 0,
            rs == rects@,
            stride == width * 4,
            j <= rs.len(),
            spotlights_fit(len, width, height, rs, win_x, win_y),
            forall|i: int|
                0 <= i < n ==> #[trigger] buffer@[i] == (if spot_lit(
                    rs,
                    j as int,
                    win_x,
                    win_y,
                    (i / 4) % w,
                    (i / 4) / w,
                ) {
                    0
                } else {
                    dim_byte(i)
                }),
        decreases rs.len() - j,
    {
        let (sx0, sy0, sx1, sy1) = rects[j];
        assert(rs[j as int] == (sx0, sy0, sx1, sy1));
        let rx0 = sx0 - win_x;
        let ry0 = sy0 - win_y;
        let rx1 = sx1 - win_x;
        let ry1 = sy1 - win_y;
        let meets = sx0 <= sx1 && sy0 <= sy1 && rx0 <= width - 1 && rx1 >= 0 && ry0 <= height - 1
            && ry1 >= 0;
        let x0 = clamp_i32(rx0, 0, width - 1);
        let y0 = clamp_i32(ry0, 0, height - 1);
        let x1 = clamp_i32(rx1, 0, width - 1);
        let y1 = clamp_i32(ry1, 0, height - 1);
        if meets {
            proof {
                assert((y1 as int * w + x1) * 4 + 3 < len) by (nonlinear_arith)
                    requires
                        0 <= x1 < w,
                        0 <= y1 < h,
                        len == w * h * 4,
                ;
            }
            let mut y: i32 = y0;
            while y <= y1
                invariant
                    n == buffer@.len(),
                    len == n,
                    w == width,
                    width > 0,
                    height > 0,
                    rs == rects@,
                    stride == width * 4,
                    j < rs.len(),
                    0 <= x0 <= x1 < width,
                    0 <= y0 <= y1 < height,
                    (y1 as int * w + x1) * 4 + 3 < len,
                    y0 <= y <= y1 + 1,
                    forall|i: int|
                        0 <= i < n ==> #[trigger] buffer@[i] == (if spot_lit(
                            rs,
                            j as int,
                            win_x,
                            win_y,
                            (i / 4) % w,
                            (i / 4) / w,
                        ) || (x0 <= (i / 4) % w <= x1 && y0 <= (i / 4) / w < y) {
                            0
                        } else {
                            dim_byte(i)
                        }),
                decreases y1 + 1 - y,
            {
                let mut x: i32 = x0;
                while x <= x1
                    invariant
                        n == buffer@.len(),
                        len == n,
                        w == width,
                        width > 0,
                        stride == width * 4,
                        0 <= x0 <= x1 < width,
                        0 <= y0 <= y <= y1 < height,
                        (y1 as int * w + x1) * 4 + 3 < len,
                        x0 <= x <= x1 + 1,
                        forall|i: int|
                            0 <= i < n ==> #[trigger] buffer@[i] == (if spot_lit(
                                rs,
                                j as int,
                                win_x,
                                win_y,
                                (i / 4) % w,
                                (i / 4) / w,
                            ) || (x0 <= (i / 4) % w <= x1 && y0 <= (i / 4) / w < y) || ((i / 4)
                                / w == y && x0 <= (i / 4) % w < x) {
                                0
                            } else {
                                dim_byte(i)
                            }),
                    decreases x1 + 1 - x,
                {
                    let ghost p: int = y as int * w + x as int;
                    proof {
                        lemma_pixel_index(w, x as int, y as int, 0);
                        lemma_pixel_index(w, x as int, y as int, 3);
                        assert(p <= y1 as int * w + x1) by (nonlinear_arith)
                            requires
                                y <= y1,
                                x <= x1,
                                w > 0,
                                p == y as int * w + x as int,
                        ;
                        assert(y as int * (width as int * 4) + x as int * 4 == p * 4)
                            by (nonlinear_arith)
                            requires
                                p == y as int * w + x as int,
                                w == width,
                        ;
                    }
                    let off = y as usize * stride + x as usize * 4;
                    assert(off == p * 4);
                    buffer[off] = 0;
                    buffer[off + 1] = 0;
                    buffer[off + 2] = 0;
                    buffer[off + 3] = 0;
                    proof {
                        assert forall|i: int| 0 <= i < n implies #[trigger] buffer@[i] == (if spot_lit(
                            rs,
                            j as int,
                            win_x,
                            win_y,
                            (i / 4) % w,
                            (i / 4) / w,
                        ) || (x0 <= (i / 4) % w <= x1 && y0 <= (i / 4) / w < y) || ((i / 4) / w
                            == y && x0 <= (i / 4) % w < x + 1) {
                            0
                        } else {
                            dim_byte(i)
                        }) by {
                            if p * 4 <= i < p * 4 + 4 {
                                assert(i / 4 == p);
                                lemma_pixel_index(w, x as int, y as int, 0);
                            } else if 0 <= i {
                                lemma_pixel_from_coords(w, i / 4);
                                if (i / 4) / w == y && (i / 4) % w == x {
                                    assert(i / 4 == p);
                                }
                            }
                        }
                    }
                    x = x + 1;
                }
                y = y + 1;
            }
        }
        proof {
            assert forall|i: int| 0 <= i < n implies #[trigger] buffer@[i] == (if spot_lit(
                rs,
                (j + 1) as int,
                win_x,
                win_y,
                (i / 4) % w,
                (i / 4) / w,
            ) {
                0
            } else {
                dim_byte(i)
            }) by {
                if 0 <= i {
                    lemma_pixel_in_window(w, h, i / 4);
                    lemma_spot_bounds(rs[j as int], win_x, win_y, width, height, (i / 4) % w, (i / 4) / w);
                }
            }
        }
        j = j + 1;
    }
    proof {
        assert forall|i: int| 0 <= i < n implies #[trigger] buffer@[i] == dimmed_buffer_byte(
            i,
            width,
            rs,
            win_x,
            win_y,
        ) by {}
    }
}

/// `v` limited to the range from `lo` to `hi`, where `lo <= hi`.
fn clamp_i32(v: i32, lo: i32, hi: i32) -> (r: i32)
    requires
        lo <= hi,
    ensures
        r == clamp_int(v as int, lo as int, hi as int),
{
    if v < lo {
        lo
    } else if v > hi {
        hi
    } else {
        v
    }
}

/// The number of pixels in ring `o` (counted from the outside, from 0) of a
/// border inside the rectangle from `(x0, y0)` to `(x1, y1)`, bounds included:
/// a single row or column counts once, otherwise the full top and bottom
/// rows plus the left and right columns between them.
pub open spec fn ring_pixel_count(x0: int, y0: int, x1: int, y1: int, o: int) -> int {
    let top = y0 + o;
    let bottom = y1 - o;
    let left = x0 + o;
    let right = x1 - o;
    if top == bottom {
        right - left + 1
    } else if left == right {
        bottom - top + 1
    } else {
        (right - left + 1) * 2 + (bottom - top - 1) * 2
    }
}

/// `v` when it is positive, otherwise zero.
pub open spec fn pos(v: int) -> int {
    if v > 0 {
        v
    } else {
        0
    }
}

/// The number of pixels of the rectangle from `(x0, y0)` to `(x1, y1)`,
/// bounds included, that lie fewer than `n` pixels from its edge: its area
/// less the area of the inner rectangle that is `2 * n` smaller in each
/// direction, or the whole rectangle when the border is thicker than that.
pub open spec fn border_area(x0: int, y0: int, x1: int, y1: int, n: int) -> int {
    let w = x1 - x0 + 1;
    let h = y1 - y0 + 1;
    let k = if n > 0 {
        n
    } else {
        0
    };
    w * h - pos(w - 2 * k) * pos(h - 2 * k)
}

/// Adding a ring that is not empty adds its pixel count to the border's area.
proof fn lemma_area_step(x0: int, y0: int, x1: int, y1: int, o: int)
    requires
        0 <= o,
        x1 - x0 + 1 - 2 * o >= 1,
        y1 - y0 + 1 - 2 * o >= 1,
    ensures
        border_area(x0, y0, x1, y1, o + 1) == border_area(x0, y0, x1, y1, o) + ring_pixel_count(
            x0,
            y0,
            x1,
            y1,
            o,
        ),
{
    let w = x1 - x0 + 1;
    let h = y1 - y0 + 1;
    let a = w - 2 * o;
    let c = h - 2 * o;
    assert(w - 2 * (o + 1) == a - 2);
    assert(h - 2 * (o + 1) == c - 2);
    if c == 1 {
        assert(pos(c - 2) == 0);
        assert(pos(a) * pos(c) == a) by (nonlinear_arith)
            requires
                c == 1,
                a >= 1,
                pos(a) == a,
                pos(c) == c,
        ;
        assert(pos(a - 2) * pos(c - 2) == 0) by (nonlinear_arith)
            requires
                pos(c - 2) == 0,
        ;
    } else if a == 1 {
        assert(pos(a - 2) == 0);
        assert(pos(a) * pos(c) == c) by (nonlinear_arith)
            requires
                a == 1,
                c >= 1,
                pos(a) == a,
                pos(c) == c,
        ;
        assert(pos(a - 2) * pos(c - 2) == 0) by (nonlinear_arith)
            requires
                pos(a - 2) == 0,
        ;
    } else {
        assert(pos(a) * pos(c) - pos(a - 2) * pos(c - 2) == 2 * a + 2 * (c - 2)) by (nonlinear_arith)
            requires
                a >= 2,
                c >= 2,
                pos(a) == a,
                pos(c) == c,
                pos(a - 2) == a - 2,
                pos(c - 2) == c - 2,
        ;
    }
}

/// Once a ring is empty, thicker borders add nothing: the border covers the
/// whole rectangle.
proof fn lemma_area_saturated(x0: int, y0: int, x1: int, y1: int, o: int, n: int)
    requires
        0 <= o <= n,
        x1 - x0 + 1 - 2 * o <= 0 || y1 - y0 + 1 - 2 * o <= 0,
    ensures
        border_area(x0, y0, x1, y1, o) == border_area(x0, y0, x1, y1, n),
{
    let w = x1 - x0 + 1;
    let h = y1 - y0 + 1;
    assert(pos(w - 2 * o) * pos(h - 2 * o) == 0) by (nonlinear_arith)
        requires
            pos(w - 2 * o) == 0 || pos(h - 2 * o) == 0,
    ;
    assert(pos(w - 2 * n) * pos(h - 2 * n) == 0) by (nonlinear_arith)
        requires
            pos(w - 2 * n) == 0 || pos(h - 2 * n) == 0,
    ;
}

/// The border never covers more than its rectangle.
proof fn lemma_area_at_most_rect(x0: int, y0: int, x1: int, y1: int, n: int)
    requires
        x0 <= x1,
        y0 <= y1,
    ensures
        0 <= border_area(x0, y0, x1, y1, n) <= (x1 - x0 + 1) * (y1 - y0 + 1),
{
    let w = x1 - x0 + 1;
    let h = y1 - y0 + 1;
    let k = if n > 0 {
        n
    } else {
        0
    };
    assert(0 <= pos(w - 2 * k) * pos(h - 2 * k) <= w * h) by (nonlinear_arith)
        requires
            0 <= pos(w - 2 * k) <= w,
            0 <= pos(h - 2 * k) <= h,
    ;
}

/// Expected number of unique border pixels for a rectangle `(x0, y0)` to
/// `(x1, y1)` with the given border width: the pixels fewer than
/// `border_width` pixels from the rectangle's edge, each counted once, no
/// corner twice. Rings are counted from the outside in, until the border
/// width is reached or the rings meet in the middle.
pub fn expected_border_pixel_count(x0: i32, y0: i32, x1: i32, y1: i32, border_width: i32) -> (count:
    usize)
    requires
        border_width > 0 ==> x0 <= x1 && y0 <= y1 && (x1 - x0 + 1) * (y1 - y0 + 1) <= usize::MAX,
    ensures
        count == if border_width > 0 {
            border_area(x0 as int, y0 as int, x1 as int, y1 as int, border_width as int)
        } else {
            0
        },
{
    let mut count: usize = 0;
    let mut offset: i32 = 0;
    let ghost area = (x1 - x0 + 1) * (y1 - y0 + 1);
    proof {
        if border_width > 0 {
            assert(border_area(x0 as int, y0 as int, x1 as int, y1 as int, 0) == 0);
        }
    }
    while offset < border_width && y0 as i64 + offset as i64 <= y1 as i64 - offset as i64 && x0 as i64
        + offset as i64 <= x1 as i64 - offset as i64
        invariant
            0 <= offset,
            border_width > 0 ==> offset <= border_width,
            border_width <= 0 ==> offset == 0,
            border_width > 0 ==> x0 <= x1 && y0 <= y1 && area <= usize::MAX,
            area == (x1 - x0 + 1) * (y1 - y0 + 1),
            border_width > 0 ==> count == border_area(
                x0 as int,
                y0 as int,
                x1 as int,
                y1 as int,
                offset as int,
            ),
            border_width <= 0 ==> count == 0,
        decreases border_width - offset,
    {
        let o = offset as i64;
        let top = y0 as i64 + o;
        let bottom = y1 as i64 - o;
        let left = x0 as i64 + o;
        let right = x1 as i64 - o;
        proof {
            lemma_area_step(x0 as int, y0 as int, x1 as int, y1 as int, offset as int);
            lemma_area_at_most_rect(x0 as int, y0 as int, x1 as int, y1 as int, offset + 1);
        }
        if top == bottom {
            count = count + (right - left + 1) as usize;
        } else if left == right {
            count = count + (bottom - top + 1) as usize;
        } else {
            count = count + (right - left + 1) as usize * 2;
            count = count + (bottom - top - 1) as usize * 2;
        }
        offset = offset + 1;
    }
    proof {
        if border_width > 0 && offset < border_width {
            lemma_area_saturated(
                x0 as int,
                y0 as int,
                x1 as int,
                y1 as int,
                offset as int,
                border_width as int,
            );
        }
    }
    count
}

/// The bounds `(left, top, right, bottom)` in the window of the border
/// rectangle spanned by `start` and `current` (screen coordinates): the
/// rectangle with its corners put in order, moved into the window and held
/// inside it.
pub open spec fn border_bounds(
    start: (i32, i32),
    current: (i32, i32),
    win_x: i32,
    win_y: i32,
    width: i32,
    height: i32,
) -> (i32, i32, i32, i32) {
    (
        clamp_int(min_i32(start.0, current.0) - win_x, 0, width - 1) as i32,
        clamp_int(min_i32(start.1, current.1) - win_y, 0, height - 1) as i32,
        clamp_int(max_i32(start.0, current.0) - win_x, 0, width - 1) as i32,
        clamp_int(max_i32(start.1, current.1) - win_y, 0, height - 1) as i32,
    )
}

/// Whether ring `o` of the border inside `b` passes through pixel
/// `(px, py)`: the ring's top and bottom rows run from its left to its right
/// column, and its left and right columns fill the rows strictly between.
pub open spec fn on_ring(b: (i32, i32, i32, i32), o: int, px: int, py: int) -> bool {
    let top = b.1 + o;
    let bottom = b.3 - o;
    let left = b.0 + o;
    let right = b.2 - o;
    ||| (left <= px <= right && (py == top || py == bottom))
    ||| (top < py < bottom && (px == left || px == right))
}

/// Whether the rectangle `b` is wide and tall enough to get a border.
pub open spec fn has_area(b: (i32, i32, i32, i32)) -> bool {
    b.0 < b.2 && b.1 < b.3
}

/// Whether pixel `(px, py)` lies on one of the first `n` rings inside `b`.
pub open spec fn on_rings(b: (i32, i32, i32, i32), n: int, px: int, py: int) -> bool {
    exists|o: int| 0 <= o < n && #[trigger] on_ring(b, o, px, py)
}

/// Whether pixel `(px, py)` lies in the rectangle `b`, bounds included.
pub open spec fn in_rect(b: (i32, i32, i32, i32), px: int, py: int) -> bool {
    b.0 <= px <= b.2 && b.1 <= py <= b.3
}

/// Whether a border `border_width` pixels thick inside `b` covers pixel
/// `(px, py)`: the pixel lies in the rectangle, fewer than `border_width`
/// pixels from its edge, and the rectangle has area.
pub open spec fn drawn_pixel(b: (i32, i32, i32, i32), border_width: int, px: int, py: int) -> bool {
    has_area(b) && in_rect(b, px, py) && depth_in(b, px, py) < border_width
}

/// The pixels that drawing ring `o` along its rows visits: the full row
/// from left to right, once more for the bottom row when it is another row.
pub open spec fn row_calls(b: (i32, i32, i32, i32), o: int) -> int {
    let top = b.1 + o;
    let bottom = b.3 - o;
    let left = b.0 + o;
    let right = b.2 - o;
    if left <= right {
        (right - left + 1) * if top != bottom {
            2int
        } else {
            1int
        }
    } else {
        0
    }
}

/// The pixels that drawing ring `o` along its columns visits: the rows
/// strictly between its top and bottom, once more for the right column when
/// it is another column.
pub open spec fn col_calls(b: (i32, i32, i32, i32), o: int) -> int {
    let top = b.1 + o;
    let bottom = b.3 - o;
    let left = b.0 + o;
    let right = b.2 - o;
    if top + 1 <= bottom - 1 {
        (bottom - top - 1) * if left != right {
            2int
        } else {
            1int
        }
    } else {
        0
    }
}

/// The pixel visits made while drawing a border `border_width` pixels thick
/// inside `b`: one for each pixel of the border, none when `b` has no area.
pub open spec fn border_calls(b: (i32, i32, i32, i32), border_width: int) -> int {
    if has_area(b) {
        border_area(b.0 as int, b.1 as int, b.2 as int, b.3 as int, border_width)
    } else {
        0
    }
}

/// Whether a border can be drawn into a buffer of `len` bytes for a window
/// `width` by `height` pixels at `(win_x, win_y)`: the buffer holds the
/// window's pixels exactly, and the rectangle's corners can be moved into
/// the window in 32 bits.
pub open spec fn border_fits(
    len: int,
    width: i32,
    height: i32,
    win_x: i32,
    win_y: i32,
    start: (i32, i32),
    current: (i32, i32),
) -> bool {
    &&& len == width * height * 4
    &&& i32::MIN <= start.0 - win_x <= i32::MAX
    &&& i32::MIN <= current.0 - win_x <= i32::MAX
    &&& i32::MIN <= start.1 - win_y <= i32::MAX
    &&& i32::MIN <= current.1 - win_y <= i32::MAX
}

/// Whether the pixels in `written` are exactly those of the window, `w` by
/// `h` pixels, that `cover` names.
#[verifier::opaque]
pub open spec fn cover_matches(
    written: Set<int>,
    cover: spec_fn(int, int) -> bool,
    w: int,
    h: int,
) -> bool {
    &&& forall|p: int| #[trigger] written.contains(p) ==> 0 <= p < w * h
    &&& forall|p: int|
        0 <= p < w * h ==> (#[trigger] written.contains(p) <==> covers(cover, p % w, p / w))
}

/// Whether every byte of a pixel outside `written` is as it was in `old`.
#[verifier::opaque]
pub open spec fn untouched(buf: Seq<u8>, old: Seq<u8>, written: Set<int>) -> bool {
    forall|i: int| 0 <= i < buf.len() && !written.contains(i / 4) ==> #[trigger] buf[i] == old[i]
}

/// Whether every pixel in `written` is opaque and holds a colour that
/// `color_at` may give for it, in a window `w` pixels wide and a border
/// inside `b`.
#[verifier::opaque]
pub open spec fn painted<F: Fn(i32, i32, i32, i32, i32, i32) -> (u8, u8, u8)>(
    buf: Seq<u8>,
    w: int,
    b: (i32, i32, i32, i32),
    color_at: F,
    written: Set<int>,
) -> bool {
    forall|p: int|
        #[trigger] written.contains(p) ==> {
            &&& buf[4 * p + 3] == 255
            &&& color_at.ensures(
                ((p % w) as i32, (p / w) as i32, b.0, b.1, b.2, b.3),
                (buf[4 * p + 2], buf[4 * p + 1], buf[4 * p]),
            )
        }
}

/// The written pixels that were transparent in `old`.
pub open spec fn fresh_pixels(old: Seq<u8>, written: Set<int>) -> Set<int> {
    written.filter(|p: int| old[4 * p + 3] == 0)
}

/// What the border drawing keeps true after each pixel: the pixels in
/// `written` are exactly those in the window that `cover` names so far;
/// each of them is opaque and holds a colour that `color_at` may give for
/// it; every other byte is as it was in `old`; and `unique` counts the
/// written pixels that were transparent in `old`.
pub open spec fn fill_inv<F: Fn(i32, i32, i32, i32, i32, i32) -> (u8, u8, u8)>(
    buf: Seq<u8>,
    old: Seq<u8>,
    w: int,
    h: int,
    b: (i32, i32, i32, i32),
    color_at: F,
    written: Set<int>,
    cover: spec_fn(int, int) -> bool,
    unique: int,
) -> bool {
    &&& w > 0
    &&& h > 0
    &&& buf.len() == w * h * 4
    &&& old.len() == w * h * 4
    &&& written.finite()
    &&& cover_matches(written, cover, w, h)
    &&& untouched(buf, old, written)
    &&& painted(buf, w, b, color_at, written)
    &&& unique == fresh_pixels(old, written).len()
}

/// Whether `cover` names pixel `(a, c)`.
pub open spec fn covers(cover: spec_fn(int, int) -> bool, a: int, c: int) -> bool {
    cover(a, c)
}

/// A pixel index in a window `w` by `h` pixels has its column and row in
/// the window.
proof fn lemma_pixel_in_window(w: int, h: int, p: int)
    requires
        w > 0,
        h > 0,
        0 <= p < w * h,
    ensures
        p == (p / w) * w + p % w,
        0 <= p % w < w,
        0 <= p / w < h,
{
    lemma_pixel_from_coords(w, p);
    assert(p / w < h) by (nonlinear_arith)
        requires
            w > 0,
            0 <= p < w * h,
    ;
}

/// A different cover that names the same pixels of the window keeps the
/// drawing state valid.
proof fn lemma_fill_inv_recover<F: Fn(i32, i32, i32, i32, i32, i32) -> (u8, u8, u8)>(
    buf: Seq<u8>,
    old: Seq<u8>,
    w: int,
    h: int,
    b: (i32, i32, i32, i32),
    color_at: F,
    written: Set<int>,
    cover: spec_fn(int, int) -> bool,
    cover2: spec_fn(int, int) -> bool,
    unique: int,
)
    requires
        fill_inv(buf, old, w, h, b, color_at, written, cover, unique),
        forall|a: int, c: int|
            0 <= a < w && 0 <= c < h ==> #[trigger] covers(cover2, a, c) == covers(cover, a, c),
    ensures
        fill_inv(buf, old, w, h, b, color_at, written, cover2, unique),
{
    reveal(cover_matches);
    assert forall|p: int| 0 <= p < w * h implies (#[trigger] written.contains(p) <==> covers(
        cover2,
        p % w,
        p / w,
    )) by {
        lemma_pixel_in_window(w, h, p);
    }
}

/// Writing one pixel of the border: a pixel outside the window is left
/// alone; one inside becomes opaque with the given colour, joins `written`,
/// and counts once more if it was transparent and not written before.
proof fn lemma_pixel_write<F: Fn(i32, i32, i32, i32, i32, i32) -> (u8, u8, u8)>(
    buf0: Seq<u8>,
    buf1: Seq<u8>,
    old: Seq<u8>,
    w: int,
    h: int,
    b: (i32, i32, i32, i32),
    color_at: F,
    written: Set<int>,
    cover: spec_fn(int, int) -> bool,
    cover2: spec_fn(int, int) -> bool,
    unique: int,
    x: i32,
    y: i32,
    color: (u8, u8, u8),
    was_zero: bool,
) -> (written2: Set<int>)
    requires
        fill_inv(buf0, old, w, h, b, color_at, written, cover, unique),
        !(0 <= x < w && 0 <= y < h) ==> buf1 == buf0 && !was_zero,
        (0 <= x < w && 0 <= y < h) ==> {
            let p = y * w + x;
            &&& was_zero == (buf0[4 * p + 3] == 0)
            &&& buf1 == buf0.update(4 * p, color.2).update(4 * p + 1, color.1).update(
                4 * p + 2,
                color.0,
            ).update(4 * p + 3, 255)
            &&& color_at.ensures((x, y, b.0, b.1, b.2, b.3), color)
        },
        forall|a: int, c: int|
            0 <= a < w && 0 <= c < h ==> #[trigger] covers(cover2, a, c) == (covers(cover, a, c) || (a
                == x && c == y)),
    ensures
        fill_inv(
            buf1,
            old,
            w,
            h,
            b,
            color_at,
            written2,
            cover2,
            unique + if was_zero {
                1int
            } else {
                0int
            },
        ),
        (0 <= x < w && 0 <= y < h && !covers(cover, x as int, y as int)) ==> written2.len()
            == written.len() + 1,
{
    reveal(cover_matches);
    reveal(untouched);
    reveal(painted);
    if !(0 <= x < w && 0 <= y < h) {
        assert forall|p: int| 0 <= p < w * h implies (#[trigger] written.contains(p) <==> covers(
            cover2,
            p % w,
            p / w,
        )) by {
            lemma_pixel_in_window(w, h, p);
        }
        written
    } else {
        let pp = y * w + x;
        lemma_pixel_index(w, x as int, y as int, 0);
        assert(0 <= pp < w * h) by (nonlinear_arith)
            requires
                pp == y * w + x,
                0 <= x < w,
                0 <= y < h,
        ;
        let written2 = written.insert(pp);
        let pred = |p: int| old[4 * p + 3] == 0;
        assert forall|p: int| 0 <= p < w * h implies (#[trigger] written2.contains(p) <==> covers(
            cover2,
            p % w,
            p / w,
        )) by {
            lemma_pixel_in_window(w, h, p);
            if p % w == x && p / w == y {
                assert(p == pp);
            }
        }
        assert forall|i: int|
            0 <= i < buf1.len() && !written2.contains(i / 4) implies #[trigger] buf1[i]
            == old[i] by {
            assert(i / 4 != pp);
            assert(i != 4 * pp && i != 4 * pp + 1 && i != 4 * pp + 2 && i != 4 * pp + 3);
        }
        assert forall|p: int| #[trigger] written2.contains(p) implies {
            &&& buf1[4 * p + 3] == 255
            &&& color_at.ensures(
                ((p % w) as i32, (p / w) as i32, b.0, b.1, b.2, b.3),
                (buf1[4 * p + 2], buf1[4 * p + 1], buf1[4 * p]),
            )
        } by {
            if p != pp {
                assert(written.contains(p));
            }
        }
        if written.contains(pp) {
            assert(written2 =~= written);
            assert(covers(cover, pp % w, pp / w));
        } else {
            assert((4 * pp + 3) / 4 == pp);
            assert(buf0[4 * pp + 3] == old[4 * pp + 3]);
            if pred(pp) {
                assert(fresh_pixels(old, written2) =~= fresh_pixels(old, written).insert(pp));
            } else {
                assert(fresh_pixels(old, written2) =~= fresh_pixels(old, written));
            }
        }
        written2
    }
}

/// Whether ring `o` of the border inside `b` is not empty: its top row is
/// not below its bottom row, nor its left column right of its right column.
pub open spec fn ring_nonempty(b: (i32, i32, i32, i32), o: int) -> bool {
    b.1 + o <= b.3 - o && b.0 + o <= b.2 - o
}

/// Drawing a ring that is not empty along its rows and then its columns
/// visits each of its pixels once.
proof fn lemma_ring_visits(b: (i32, i32, i32, i32), o: int)
    requires
        0 <= o,
        ring_nonempty(b, o),
    ensures
        row_calls(b, o) >= 0,
        col_calls(b, o) >= 0,
        row_calls(b, o) + col_calls(b, o) == ring_pixel_count(
            b.0 as int,
            b.1 as int,
            b.2 as int,
            b.3 as int,
            o,
        ),
{
}

/// The first `k + 1` rings are the first `k` and ring `k`.
proof fn lemma_on_rings_step(b: (i32, i32, i32, i32), k: int, a: int, c: int)
    requires
        k >= 0,
    ensures
        on_rings(b, k + 1, a, c) == (on_rings(b, k, a, c) || on_ring(b, k, a, c)),
{
    if on_rings(b, k + 1, a, c) {
        let o = choose|o: int| 0 <= o < k + 1 && #[trigger] on_ring(b, o, a, c);
        if o < k {
            assert(on_rings(b, k, a, c));
        }
    }
    if on_ring(b, k, a, c) {
        assert(0 <= k < k + 1 && on_ring(b, k, a, c));
    }
}

/// How far pixel `(a, c)` lies inside the rectangle `b`: its distance to
/// the nearest edge.
pub open spec fn depth_in(b: (i32, i32, i32, i32), a: int, c: int) -> int {
    let dl = a - b.0;
    let dr = b.2 - a;
    let dt = c - b.1;
    let db = b.3 - c;
    let dx = if dl <= dr {
        dl
    } else {
        dr
    };
    let dy = if dt <= db {
        dt
    } else {
        db
    };
    if dx <= dy {
        dx
    } else {
        dy
    }
}

/// A ring that is not empty is exactly the pixels of the rectangle at its
/// depth.
proof fn lemma_ring_depth(b: (i32, i32, i32, i32), o: int, a: int, c: int)
    requires
        0 <= o,
        ring_nonempty(b, o),
    ensures
        on_ring(b, o, a, c) <==> (in_rect(b, a, c) && depth_in(b, a, c) == o),
{
}

/// A pixel of a ring that is not empty lies on none of the rings before it.
proof fn lemma_ring_pixel_is_fresh(b: (i32, i32, i32, i32), k: int, a: int, c: int)
    requires
        0 <= k,
        ring_nonempty(b, k),
        on_ring(b, k, a, c),
    ensures
        !on_rings(b, k, a, c),
{
    lemma_ring_depth(b, k, a, c);
    if on_rings(b, k, a, c) {
        let o = choose|o: int| 0 <= o < k && #[trigger] on_ring(b, o, a, c);
        lemma_ring_depth(b, o, a, c);
    }
}

/// While each of the first `n` rings is not empty, they are exactly the
/// pixels of the rectangle at a depth below `n`.
proof fn lemma_rings_are_depths(b: (i32, i32, i32, i32), n: int, a: int, c: int)
    requires
        0 <= n,
        n > 0 ==> ring_nonempty(b, n - 1),
    ensures
        on_rings(b, n, a, c) <==> (in_rect(b, a, c) && depth_in(b, a, c) < n),
{
    if on_rings(b, n, a, c) {
        let o = choose|o: int| 0 <= o < n && #[trigger] on_ring(b, o, a, c);
        lemma_ring_depth(b, o, a, c);
    }
    if in_rect(b, a, c) && depth_in(b, a, c) < n {
        let o = depth_in(b, a, c);
        lemma_ring_depth(b, o, a, c);
        assert(0 <= o < n && on_ring(b, o, a, c));
    }
}

/// Once the drawing stops after `n` rings, because the border width is
/// reached or the next ring would be empty, the rings drawn are exactly the
/// border.
proof fn lemma_rings_drawn_are_border(
    b: (i32, i32, i32, i32),
    border_width: int,
    n: int,
    a: int,
    c: int,
)
    requires
        has_area(b),
        0 <= n,
        n > 0 ==> ring_nonempty(b, n - 1) && n <= border_width,
        n < border_width ==> !ring_nonempty(b, n),
    ensures
        drawn_pixel(b, border_width, a, c) <==> on_rings(b, n, a, c),
{
    lemma_rings_are_depths(b, n, a, c);
}

/// Sets pixel `(x, y)` of a BGRA buffer for a window `width` pixels wide to
/// the opaque colour `(r, g, b)`, and says whether it was transparent
/// before. A pixel outside the window is left alone and counts as not
/// transparent.
fn set_pixel(buf: &mut Vec<u8>, width: i32, height: i32, x: i32, y: i32, color: (u8, u8, u8)) -> (was_zero:
    bool)
    requires
        width > 0,
        height > 0,
        old(buf)@.len() == width * height * 4,
    ensures
        !(0 <= x < width && 0 <= y < height) ==> final(buf)@ == old(buf)@ && !was_zero,
        (0 <= x < width && 0 <= y < height) ==> {
            let p = y * width + x;
            &&& was_zero == (old(buf)@[4 * p + 3] == 0)
            &&& final(buf)@ == old(buf)@.update(4 * p, color.2).update(4 * p + 1, color.1).update(
                4 * p + 2,
                color.0,
            ).update(4 * p + 3, 255)
        },
{
    if x < 0 || x >= width || y < 0 || y >= height {
        return false;
    }
    let n = buf.len();
    let ghost p: int = y * width + x;
    proof {
        assert(width * 4 <= width * height * 4) by (nonlinear_arith)
            requires
                width > 0,
                height > 0,
        ;
        assert(p * 4 + 3 < width * height * 4) by (nonlinear_arith)
            requires
                p == y * width + x,
                0 <= x < width,
                0 <= y < height,
        ;
        assert(y as int * (width as int * 4) + x as int * 4 == p * 4) by (nonlinear_arith)
            requires
                p == y * width + x,
        ;
        assert(0 <= p) by (nonlinear_arith)
            requires
                p == y * width + x,
                0 <= x,
                0 <= y,
                width > 0,
        ;
    }
    let stride: usize = width as usize * 4;
    let offset: usize = y as usize * stride + x as usize * 4;
    let was_zero = buf[offset + 3] == 0;
    buf.set(offset, color.2);
    buf.set(offset + 1, color.1);
    buf.set(offset + 2, color.0);
    buf.set(offset + 3, 255);
    was_zero
}

/// Whether the pixel with index `p` of a window `w` pixels wide lies on a
/// border `border_width` pixels thick inside `b`.
pub open spec fn drawn_index(b: (i32, i32, i32, i32), border_width: int, w: int, p: int) -> bool {
    drawn_pixel(b, border_width, p % w, p / w)
}

/// What drawing a border leaves: `counts.1` pixel visits, one for each
/// pixel of the border; in `buf`, every pixel of the border opaque and
/// holding a colour that `color_at` may give for it, every other byte as in
/// `old`; and `counts.0` the number of border pixels that were transparent
/// in `old`.
pub open spec fn border_drawn<F: Fn(i32, i32, i32, i32, i32, i32) -> (u8, u8, u8)>(
    buf: Seq<u8>,
    old: Seq<u8>,
    width: i32,
    height: i32,
    b: (i32, i32, i32, i32),
    border_width: i32,
    color_at: F,
    counts: (usize, usize),
) -> bool {
    let w = width as int;
    let h = height as int;
    &&& counts.1 == border_calls(b, border_width as int)
    &&& counts.0 <= counts.1
    &&& Set::new(|p: int| 0 <= p < w * h && drawn_index(b, border_width as int, w, p)).len()
        == counts.1
    &&& counts.0 == Set::new(
        |p: int| 0 <= p < w * h && drawn_index(b, border_width as int, w, p) && old[4 * p + 3] == 0,
    ).len()
    &&& forall|i: int|
        0 <= i < buf.len() && !drawn_index(b, border_width as int, w, i / 4) ==> #[trigger] buf[i]
            == old[i]
    &&& forall|p: int|
        0 <= p < w * h && #[trigger] drawn_index(b, border_width as int, w, p) ==> {
            &&& buf[4 * p + 3] == 255
            &&& color_at.ensures(
                ((p % w) as i32, (p / w) as i32, b.0, b.1, b.2, b.3),
                (buf[4 * p + 2], buf[4 * p + 1], buf[4 * p]),
            )
        }
}

/// Once every ring is drawn, the drawing state is what `border_drawn` says.
proof fn lemma_fill_done<F: Fn(i32, i32, i32, i32, i32, i32) -> (u8, u8, u8)>(
    buf: Seq<u8>,
    old: Seq<u8>,
    width: i32,
    height: i32,
    b: (i32, i32, i32, i32),
    border_width: i32,
    color_at: F,
    written: Set<int>,
    unique: usize,
    total: usize,
)
    requires
        fill_inv(
            buf,
            old,
            width as int,
            height as int,
            b,
            color_at,
            written,
            |a: int, c: int| drawn_pixel(b, border_width as int, a, c),
            unique as int,
        ),
        total == border_calls(b, border_width as int),
        unique <= total,
        written.len() == total,
    ensures
        border_drawn(buf, old, width, height, b, border_width, color_at, (unique, total)),
{
    reveal(cover_matches);
    reveal(untouched);
    reveal(painted);
    let w = width as int;
    let h = height as int;
    let bw = border_width as int;
    assert forall|p: int| 0 <= p < w * h implies (written.contains(p) <==> #[trigger] drawn_index(
        b,
        bw,
        w,
        p,
    )) by {
        assert(covers(|a: int, c: int| drawn_pixel(b, bw, a, c), p % w, p / w) == drawn_index(
            b,
            bw,
            w,
            p,
        ));
    }
    assert(fresh_pixels(old, written) =~= Set::new(
        |p: int| 0 <= p < w * h && drawn_index(b, bw, w, p) && old[4 * p + 3] == 0,
    ));
    assert(written =~= Set::new(|p: int| 0 <= p < w * h && drawn_index(b, bw, w, p)));
    assert forall|i: int|
        0 <= i < buf.len() && !drawn_index(b, bw, w, i / 4) implies #[trigger] buf[i] == old[i] by {
        assert(0 <= i / 4 < w * h);
        assert(!written.contains(i / 4));
    }
    assert forall|p: int| 0 <= p < w * h && #[trigger] drawn_index(b, bw, w, p) implies {
        &&& buf[4 * p + 3] == 255
        &&& color_at.ensures(
            ((p % w) as i32, (p / w) as i32, b.0, b.1, b.2, b.3),
            (buf[4 * p + 2], buf[4 * p + 1], buf[4 * p]),
        )
    } by {
        assert(written.contains(p));
    }
}

/// Draws the border of the rectangle spanned by `start` and `current`
/// (screen coordinates) into a BGRA buffer for a window `width` by `height`
/// pixels at `(win_x, win_y)`. The rectangle is put in order and held
/// inside the window; a rectangle without area gets no border. The border
/// covers the pixels of the held rectangle fewer than `border_width` pixels
/// from its edge. It is drawn in rings from the outside in, until the
/// border width is reached or the rings meet in the middle; each ring's top
/// and bottom rows are drawn corner to corner and its side columns only
/// between them, so that no pixel is visited twice. Every pixel gets the
/// colour that `color_at` gives for its column and row and the held
/// rectangle.
///
/// Returns `(unique, total)`: the number of border pixels that were
/// transparent before, and the number of pixel visits, which is the number
/// of border pixels.
pub fn fill_border_pixels<F: Fn(i32, i32, i32, i32, i32, i32) -> (u8, u8, u8)>(
    buffer: &mut Vec<u8>,
    width: i32,
    height: i32,
    win_x: i32,
    win_y: i32,
    start: (i32, i32),
    current: (i32, i32),
    border_width: i32,
    color_at: F,
) -> (counts: (usize, usize))
    requires
        forall|a: i32, b: i32, c: i32, d: i32, e: i32, g: i32|
            #[trigger] color_at.requires((a, b, c, d, e, g)),
        (width > 0 && height > 0) ==> border_fits(
            old(buffer)@.len() as int,
            width,
            height,
            win_x,
            win_y,
            start,
            current,
        ),
    ensures
        final(buffer)@.len() == old(buffer)@.len(),
        (width <= 0 || height <= 0) ==> final(buffer)@ == old(buffer)@ && counts == (0usize, 0usize),
        (width > 0 && height > 0) ==> border_drawn(
            final(buffer)@,
            old(buffer)@,
            width,
            height,
            border_bounds(start, current, win_x, win_y, width, height),
            border_width,
            color_at,
            counts,
        ),
{
    if width <= 0 || height <= 0 {
        return (0, 0);
    }
    let ghost old_buf = buffer@;
    let ghost w = width as int;
    let ghost h = height as int;
    let (gx0, gy0, gx1, gy1) = normalize_rect(start, current);
    let x0 = clamp_i32(gx0 - win_x, 0, width - 1);
    let y0 = clamp_i32(gy0 - win_y, 0, height - 1);
    let x1 = clamp_i32(gx1 - win_x, 0, width - 1);
    let y1 = clamp_i32(gy1 - win_y, 0, height - 1);
    let ghost b = (x0, y0, x1, y1);
    assert(b == border_bounds(start, current, win_x, win_y, width, height));
    let mut unique: usize = 0;
    let mut total: usize = 0;
    let ghost mut written: Set<int> = Set::empty();
    proof {
        reveal(cover_matches);
        reveal(untouched);
        reveal(painted);
        assert(fresh_pixels(old_buf, written) =~= Set::empty());
    }
    if x1 > x0 && y1 > y0 {
        let ghost rect_area: int = (x1 - x0 + 1) * (y1 - y0 + 1);
        proof {
            assert(buffer@.len() == buffer.len());
            assert(rect_area <= w * h) by (nonlinear_arith)
                requires
                    rect_area == (x1 - x0 + 1) * (y1 - y0 + 1),
                    1 <= x1 - x0 + 1 <= w,
                    1 <= y1 - y0 + 1 <= h,
            ;
            assert(border_calls(b, 0) == 0);
        }
        let mut offset: i32 = 0;
        while offset < border_width && y0 + offset <= y1 - offset && x0 + offset <= x1 - offset
            invariant
                forall|a: i32, b: i32, c: i32, d: i32, e: i32, g: i32|
                    #[trigger] color_at.requires((a, b, c, d, e, g)),
                w == width,
                h == height,
                b == (x0, y0, x1, y1),
                has_area(b),
                0 <= x0 < x1 < width,
                0 <= y0 < y1 < height,
                rect_area == (x1 - x0 + 1) * (y1 - y0 + 1),
                rect_area <= usize::MAX,
                0 <= offset,
                offset > 0 ==> ring_nonempty(b, offset - 1) && offset <= border_width,
                total == border_calls(b, offset as int),
                unique <= total,
                written.len() == total,
                fill_inv(
                    buffer@,
                    old_buf,
                    w,
                    h,
                    b,
                    color_at,
                    written,
                    |a: int, c: int| on_rings(b, offset as int, a, c),
                    unique as int,
                ),
            decreases border_width - offset,
        {
            let top = y0 + offset;
            let bottom = y1 - offset;
            let left = x0 + offset;
            let right = x1 - offset;
            let ghost k = offset as int;
            let ghost row_mult: int = if top != bottom {
                2
            } else {
                1
            };
            proof {
                lemma_ring_visits(b, k);
                lemma_area_step(x0 as int, y0 as int, x1 as int, y1 as int, k);
                lemma_area_at_most_rect(x0 as int, y0 as int, x1 as int, y1 as int, k + 1);
                lemma_fill_inv_recover(
                    buffer@,
                    old_buf,
                    w,
                    h,
                    b,
                    color_at,
                    written,
                    |a: int, c: int| on_rings(b, offset as int, a, c),
                    |a: int, c: int|
                        on_rings(b, k, a, c) || (left <= a < left && (c == top || c == bottom)),
                    unique as int,
                );
            }
            let mut x: i32 = left;
            while x <= right
                invariant
                    forall|a: i32, b: i32, c: i32, d: i32, e: i32, g: i32|
                        #[trigger] color_at.requires((a, b, c, d, e, g)),
                    w == width,
                    h == height,
                    b == (x0, y0, x1, y1),
                    0 <= x0 < x1 < width,
                    0 <= y0 < y1 < height,
                    k == offset,
                    0 <= k < border_width,
                    ring_nonempty(b, k),
                    written.len() == total,
                    top == y0 + k,
                    bottom == y1 - k,
                    left == x0 + k,
                    right == x1 - k,
                    row_mult == if top != bottom {
                        2int
                    } else {
                        1int
                    },
                    left <= x <= right + 1,
                    border_calls(b, k) + row_calls(b, k) + col_calls(b, k) <= usize::MAX,
                    col_calls(b, k) >= 0,
                    total == border_calls(b, k) + (x - left) * row_mult,
                    unique <= total,
                    fill_inv(
                        buffer@,
                        old_buf,
                        w,
                        h,
                        b,
                        color_at,
                        written,
                        |a: int, c: int|
                            on_rings(b, k, a, c) || (left <= a < x && (c == top || c == bottom)),
                        unique as int,
                    ),
                decreases right + 1 - x,
            {
                let ghost cover = |a: int, c: int|
                    on_rings(b, k, a, c) || (left <= a < x && (c == top || c == bottom));
                let ghost next = |a: int, c: int|
                    on_rings(b, k, a, c) || (left <= a < x + 1 && (c == top || c == bottom));
                let color = color_at(x, top, x0, y0, x1, y1);
                let ghost buf0 = buffer@;
                let was_zero = set_pixel(buffer, width, height, x, top, color);
                total = total + 1;
                if was_zero {
                    unique = unique + 1;
                }
                proof {
                    lemma_ring_pixel_is_fresh(b, k, x as int, top as int);
                }
                if top != bottom {
                    let ghost mid = |a: int, c: int|
                        on_rings(b, k, a, c) || (left <= a < x && (c == top || c == bottom)) || (a
                            == x && c == top);
                    proof {
                        written =
                        lemma_pixel_write(
                            buf0,
                            buffer@,
                            old_buf,
                            w,
                            h,
                            b,
                            color_at,
                            written,
                            cover,
                            mid,
                            (unique - if was_zero {
                                1int
                            } else {
                                0int
                            }),
                            x,
                            top,
                            color,
                            was_zero,
                        );
                    }
                    let color2 = color_at(x, bottom, x0, y0, x1, y1);
                    let ghost buf1 = buffer@;
                    let was_zero2 = set_pixel(buffer, width, height, x, bottom, color2);
                    total = total + 1;
                    if was_zero2 {
                        unique = unique + 1;
                    }
                    proof {
                        lemma_ring_pixel_is_fresh(b, k, x as int, bottom as int);
                        written =
                        lemma_pixel_write(
                            buf1,
                            buffer@,
                            old_buf,
                            w,
                            h,
                            b,
                            color_at,
                            written,
                            mid,
                            next,
                            (unique - if was_zero2 {
                                1int
                            } else {
                                0int
                            }),
                            x,
                            bottom,
                            color2,
                            was_zero2,
                        );
                    }
                } else {
                    proof {
                        written =
                        lemma_pixel_write(
                            buf0,
                            buffer@,
                            old_buf,
                            w,
                            h,
                            b,
                            color_at,
                            written,
                            cover,
                            next,
                            (unique - if was_zero {
                                1int
                            } else {
                                0int
                            }),
                            x,
                            top,
                            color,
                            was_zero,
                        );
                    }
                }
                x = x + 1;
            }
            let ghost col_mult: int = if left != right {
                2
            } else {
                1
            };
            proof {
                lemma_fill_inv_recover(
                    buffer@,
                    old_buf,
                    w,
                    h,
                    b,
                    color_at,
                    written,
                    |a: int, c: int|
                        on_rings(b, k, a, c) || (left <= a < right + 1 && (c == top || c == bottom)),
                    |a: int, c: int|
                        on_rings(b, k, a, c) || (left <= a <= right && (c == top || c == bottom))
                            || (top < c < top + 1 && (a == left || a == right)),
                    unique as int,
                );
            }
            let inner_top = top + 1;
            let inner_bottom = bottom - 1;
            assert(total == border_calls(b, k) + row_calls(b, k));
            if inner_top <= inner_bottom {
                let mut y: i32 = inner_top;
                while y <= inner_bottom
                    invariant
                        forall|a: i32, b: i32, c: i32, d: i32, e: i32, g: i32|
                            #[trigger] color_at.requires((a, b, c, d, e, g)),
                        w == width,
                        h == height,
                        b == (x0, y0, x1, y1),
                        0 <= x0 < x1 < width,
                        0 <= y0 < y1 < height,
                        k == offset,
                        0 <= k < border_width,
                        ring_nonempty(b, k),
                        written.len() == total,
                        top == y0 + k,
                        bottom == y1 - k,
                        left == x0 + k,
                        right == x1 - k,
                        inner_top == top + 1,
                        inner_bottom == bottom - 1,
                        col_mult == if left != right {
                            2int
                        } else {
                            1int
                        },
                        inner_top <= y <= inner_bottom + 1,
                        border_calls(b, k) + row_calls(b, k) + col_calls(b, k) <= usize::MAX,
                        total == border_calls(b, k) + row_calls(b, k) + (y - inner_top) * col_mult,
                        unique <= total,
                        fill_inv(
                            buffer@,
                            old_buf,
                            w,
                            h,
                            b,
                            color_at,
                            written,
                            |a: int, c: int|
                                on_rings(b, k, a, c) || (left <= a <= right && (c == top || c
                                    == bottom)) || (top < c < y && (a == left || a == right)),
                            unique as int,
                        ),
                    decreases inner_bottom + 1 - y,
                {
                    let ghost cover = |a: int, c: int|
                        on_rings(b, k, a, c) || (left <= a <= right && (c == top || c == bottom))
                            || (top < c < y && (a == left || a == right));
                    let ghost next = |a: int, c: int|
                        on_rings(b, k, a, c) || (left <= a <= right && (c == top || c == bottom))
                            || (top < c < y + 1 && (a == left || a == right));
                    let color = color_at(left, y, x0, y0, x1, y1);
                    let ghost buf0 = buffer@;
                    let was_zero = set_pixel(buffer, width, height, left, y, color);
                    total = total + 1;
                    if was_zero {
                        unique = unique + 1;
                    }
                    proof {
                        lemma_ring_pixel_is_fresh(b, k, left as int, y as int);
                    }
                    if left != right {
                        let ghost mid = |a: int, c: int|
                            on_rings(b, k, a, c) || (left <= a <= right && (c == top || c
                                == bottom)) || (top < c < y && (a == left || a == right)) || (a
                                == left && c == y);
                        proof {
                            written =
                            lemma_pixel_write(
                                buf0,
                                buffer@,
                                old_buf,
                                w,
                                h,
                                b,
                                color_at,
                                written,
                                cover,
                                mid,
                                (unique - if was_zero {
                                    1int
                                } else {
                                    0int
                                }),
                                left,
                                y,
                                color,
                                was_zero,
                            );
                        }
                        let color2 = color_at(right, y, x0, y0, x1, y1);
                        let ghost buf1 = buffer@;
                        let was_zero2 = set_pixel(buffer, width, height, right, y, color2);
                        total = total + 1;
                        if was_zero2 {
                            unique = unique + 1;
                        }
                        proof {
                            lemma_ring_pixel_is_fresh(b, k, right as int, y as int);
                            written =
                            lemma_pixel_write(
                                buf1,
                                buffer@,
                                old_buf,
                                w,
                                h,
                                b,
                                color_at,
                                written,
                                mid,
                                next,
                                (unique - if was_zero2 {
                                    1int
                                } else {
                                    0int
                                }),
                                right,
                                y,
                                color2,
                                was_zero2,
                            );
                        }
                    } else {
                        proof {
                            written =
                            lemma_pixel_write(
                                buf0,
                                buffer@,
                                old_buf,
                                w,
                                h,
                                b,
                                color_at,
                                written,
                                cover,
                                next,
                                (unique - if was_zero {
                                    1int
                                } else {
                                    0int
                                }),
                                left,
                                y,
                                color,
                                was_zero,
                            );
                        }
                    }
                    y = y + 1;
                }
            }
            proof {
                let yend: int = if inner_top <= inner_bottom {
                    bottom as int
                } else {
                    top + 1
                };
                assert forall|a: int, c: int| 0 <= a < w && 0 <= c < h implies #[trigger] on_rings(
                    b,
                    k + 1,
                    a,
                    c,
                ) == (on_rings(b, k, a, c) || (left <= a <= right && (c == top || c == bottom)) || (
                top < c < yend && (a == left || a == right))) by {
                    lemma_on_rings_step(b, k, a, c);
                }
                lemma_fill_inv_recover(
                    buffer@,
                    old_buf,
                    w,
                    h,
                    b,
                    color_at,
                    written,
                    |a: int, c: int|
                        on_rings(b, k, a, c) || (left <= a <= right && (c == top || c == bottom))
                            || (top < c < yend && (a == left || a == right)),
                    |a: int, c: int| on_rings(b, k + 1, a, c),
                    unique as int,
                );
                assert(total == border_calls(b, k + 1));
            }
            offset = offset + 1;
        }
        proof {
            assert forall|a: int, c: int| 0 <= a < w && 0 <= c < h implies #[trigger] drawn_pixel(
                b,
                border_width as int,
                a,
                c,
            ) == on_rings(b, offset as int, a, c) by {
                lemma_rings_drawn_are_border(b, border_width as int, offset as int, a, c);
            }
            lemma_fill_inv_recover(
                buffer@,
                old_buf,
                w,
                h,
                b,
                color_at,
                written,
                |a: int, c: int| on_rings(b, offset as int, a, c),
                |a: int, c: int| drawn_pixel(b, border_width as int, a, c),
                unique as int,
            );
            if offset < border_width {
                lemma_area_saturated(
                    x0 as int,
                    y0 as int,
                    x1 as int,
                    y1 as int,
                    offset as int,
                    border_width as int,
                );
            }
        }
    } else {
        proof {
            lemma_fill_inv_recover(
                buffer@,
                old_buf,
                w,
                h,
                b,
                color_at,
                written,
                |a: int, c: int| on_rings(b, 0, a, c),
                |a: int, c: int| drawn_pixel(b, border_width as int, a, c),
                unique as int,
            );
        }
    }
    proof {
        lemma_fill_done(buffer@, old_buf, width, height, b, border_width, color_at, written, unique, total);
    }
    (unique, total)
}

/// Applies a command from a client to what the overlay holds: a rectangle
/// is pinned after the others (as a border, not a spotlight); a magnifier
/// moves to the given point with the given `zoom`; clear removes every
/// pinned rectangle and the magnifier.
pub fn apply_command<Z>(
    pinned: &mut Vec<(i32, i32, i32, i32, bool)>,
    magnifier: &mut Option<((i32, i32), Z)>,
    command: &CliCommand,
    zoom: Z,
)
    ensures
        match *command {
            CliCommand::Rect { x1, y1, x2, y2 } => {
                &&& final(pinned)@ == old(pinned)@.push((x1, y1, x2, y2, false))
                &&& *final(magnifier) == *old(magnifier)
            },
            CliCommand::Magnifier { x, y, .. } => {
                &&& final(pinned)@ == old(pinned)@
                &&& *final(magnifier) == Some(((x, y), zoom))
            },
            CliCommand::Clear => {
                &&& final(pinned)@.len() == 0
                &&& *final(magnifier) == None::<((i32, i32), Z)>
            },
        },
{
    match command {
        CliCommand::Rect { x1, y1, x2, y2 } => {
            pinned.push((*x1, *y1, *x2, *y2, false));
        },
        CliCommand::Magnifier { x, y, .. } => {
            *magnifier = Some(((*x, *y), zoom));
        },
        CliCommand::Clear => {
            pinned.clear();
            *magnifier = None;
        },
    }
}

/// What one overlay frame does.
#[derive(Debug)]
pub enum FramePlan {
    /// Nothing to show, and the overlay is already hidden.
    StayHidden,
    /// Nothing to show any more: submit a fully transparent frame, so that
    /// the next show does not flash stale content, then hide the overlay.
    Hide,
    /// Show the overlay: dim everything outside `spotlights`, then draw the
    /// border of each rectangle in `borders`, given as (start, current), in
    /// order, the last on top.
    Draw { spotlights: Vec<(i32, i32, i32, i32)>, borders: Vec<((i32, i32), (i32, i32))> },
}

/// The rectangle spanned by `start` and `current`, corners put in order.
pub open spec fn ordered_rect(start: (i32, i32), current: (i32, i32)) -> (i32, i32, i32, i32) {
    (
        min_i32(start.0, current.0),
        min_i32(start.1, current.1),
        max_i32(start.0, current.0),
        max_i32(start.1, current.1),
    )
}

/// The pinned rectangles `(x0, y0, x1, y1, spotlight)` marked as
/// spotlights, in order.
pub open spec fn pinned_spotlights(pinned: Seq<(i32, i32, i32, i32, bool)>) -> Seq<
    (i32, i32, i32, i32),
>
    decreases pinned.len(),
{
    if pinned.len() == 0 {
        Seq::empty()
    } else {
        let last = pinned.last();
        pinned_spotlights(pinned.drop_last()) + if last.4 {
            seq![(last.0, last.1, last.2, last.3)]
        } else {
            Seq::empty()
        }
    }
}

/// The spotlights of a frame: the pinned ones, then the rectangle being
/// drawn when spotlight mode is on.
pub open spec fn frame_spotlights(
    pinned: Seq<(i32, i32, i32, i32, bool)>,
    drawing: DrawingState,
    spotlight_active: bool,
) -> Seq<(i32, i32, i32, i32)> {
    pinned_spotlights(pinned) + match drawing {
        DrawingState::Drawing { start, current } => if spotlight_active {
            seq![ordered_rect(start, current)]
        } else {
            Seq::empty()
        },
        _ => Seq::empty(),
    }
}

/// The borders of a frame: every pinned rectangle, then the rectangle being
/// drawn, on top.
pub open spec fn frame_borders(pinned: Seq<(i32, i32, i32, i32, bool)>, drawing: DrawingState) -> Seq<
    ((i32, i32), (i32, i32)),
> {
    pinned.map_values(|p: (i32, i32, i32, i32, bool)| ((p.0, p.1), (p.2, p.3))) + match drawing {
        DrawingState::Drawing { start, current } => seq![(start, current)],
        _ => Seq::empty(),
    }
}

/// Plans one overlay frame from the drawing state, the pinned rectangles
/// `(x0, y0, x1, y1, spotlight)`, whether spotlight mode is on, and whether
/// the overlay is currently shown. With nothing being drawn and nothing
/// pinned, the overlay is hidden (once); otherwise it is drawn with the
/// frame's spotlights and borders.
pub fn plan_frame(
    drawing: &DrawingState,
    pinned: &[(i32, i32, i32, i32, bool)],
    spotlight_active: bool,
    overlay_shown: bool,
) -> (plan: FramePlan)
    ensures
        !(drawing is Drawing || pinned@.len() > 0) ==> (if overlay_shown {
            plan is Hide
        } else {
            plan is StayHidden
        }),
        (drawing is Drawing || pinned@.len() > 0) ==> match plan {
            FramePlan::Draw { spotlights, borders } => {
                &&& spotlights@ == frame_spotlights(pinned@, *drawing, spotlight_active)
                &&& borders@ == frame_borders(pinned@, *drawing)
            },
            _ => false,
        },
{
    let has_drawing = match drawing {
        DrawingState::Drawing { .. } => true,
        _ => false,
    };
    if !should_show_overlay(has_drawing, pinned.len() > 0) {
        if overlay_shown {
            return FramePlan::Hide;
        } else {
            return FramePlan::StayHidden;
        }
    }
    let mut spotlights: Vec<(i32, i32, i32, i32)> = Vec::new();
    let mut borders: Vec<((i32, i32), (i32, i32))> = Vec::new();
    let mut i: usize = 0;
    while i < pinned.len()
        invariant
            i <= pinned@.len(),
            spotlights@ == pinned_spotlights(pinned@.subrange(0, i as int)),
            borders@ == pinned@.subrange(0, i as int).map_values(
                |p: (i32, i32, i32, i32, bool)| ((p.0, p.1), (p.2, p.3)),
            ),
        decreases pinned@.len() - i,
    {
        let (x0, y0, x1, y1, spot) = pinned[i];
        proof {
            assert(pinned@.subrange(0, i + 1).drop_last() =~= pinned@.subrange(0, i as int));
        }
        if spot {
            spotlights.push((x0, y0, x1, y1));
        }
        borders.push(((x0, y0), (x1, y1)));
        i = i + 1;
        proof {
            assert(borders@ =~= pinned@.subrange(0, i as int).map_values(
                |p: (i32, i32, i32, i32, bool)| ((p.0, p.1), (p.2, p.3)),
            ));
        }
    }
    proof {
        assert(pinned@.subrange(0, pinned@.len() as int) =~= pinned@);
    }
    match drawing {
        DrawingState::Drawing { start, current } => {
            if spotlight_active {
                spotlights.push(normalize_rect(*start, *current));
            }
            borders.push((*start, *current));
        },
        _ => {},
    }
    proof {
        assert(spotlights@ =~= frame_spotlights(pinned@, *drawing, spotlight_active));
        assert(borders@ =~= frame_borders(pinned@, *drawing));
    }
    FramePlan::Draw { spotlights, borders }
}

/// Whether the overlay's event loop should keep waking at frame rate: while
/// a rectangle is being drawn, while rectangles are pinned, or while the
/// popup is animating or shown.
pub fn needs_animation(drawing: &DrawingState, has_pinned: bool, popup_needs_frame: bool) -> (animate:
    bool)
    ensures
        animate == (drawing is Drawing || has_pinned || popup_needs_frame),
{
    let drawing_now = match drawing {
        DrawingState::Drawing { .. } => true,
        _ => false,
    };
    drawing_now || has_pinned || popup_needs_frame
}

/// Drawing the same border twice finds no transparent pixel the second
/// time: every pixel it would count was made opaque by the first drawing.
pub proof fn lemma_redraw_finds_nothing_new<F: Fn(i32, i32, i32, i32, i32, i32) -> (u8, u8, u8)>(
    buf0: Seq<u8>,
    buf1: Seq<u8>,
    buf2: Seq<u8>,
    width: i32,
    height: i32,
    b: (i32, i32, i32, i32),
    border_width: i32,
    color_at: F,
    first: (usize, usize),
    second: (usize, usize),
)
    requires
        border_drawn(buf1, buf0, width, height, b, border_width, color_at, first),
        border_drawn(buf2, buf1, width, height, b, border_width, color_at, second),
    ensures
        second.0 == 0,
        second.1 == first.1,
        (deterministic_color(color_at) && buf2.len() == buf1.len() && buf1.len() == width * height
            * 4 && width > 0) ==> buf2 == buf1,
{
    let w = width as int;
    let h = height as int;
    let bw = border_width as int;
    assert(Set::new(
        |p: int| 0 <= p < w * h && drawn_index(b, bw, w, p) && buf1[4 * p + 3] == 0,
    ) =~= Set::<int>::empty());
    if deterministic_color(color_at) && buf2.len() == buf1.len() && buf1.len() == w * h * 4 && w > 0 {
        assert forall|i: int| 0 <= i < buf2.len() implies buf2[i] == buf1[i] by {
            let p = i / 4;
            assert(0 <= p < w * h);
            if drawn_index(b, bw, w, p) {
                let args = ((p % w) as i32, (p / w) as i32, b.0, b.1, b.2, b.3);
                let c1 = (buf1[4 * p + 2], buf1[4 * p + 1], buf1[4 * p]);
                let c2 = (buf2[4 * p + 2], buf2[4 * p + 1], buf2[4 * p]);
                assert(color_at.ensures(args, c1) && color_at.ensures(args, c2));
                assert(c1 == c2);
                assert(i == 4 * p || i == 4 * p + 1 || i == 4 * p + 2 || i == 4 * p + 3);
            }
        }
        assert(buf2 =~= buf1);
    }
}

/// Whether `color_at` gives a single colour for each pixel and rectangle.
pub open spec fn deterministic_color<F: Fn(i32, i32, i32, i32, i32, i32) -> (u8, u8, u8)>(
    color_at: F,
) -> bool {
    forall|args: (i32, i32, i32, i32, i32, i32), c1: (u8, u8, u8), c2: (u8, u8, u8)|
        #![trigger color_at.ensures(args, c1), color_at.ensures(args, c2)]
        color_at.ensures(args, c1) && color_at.ensures(args, c2) ==> c1 == c2
}

/// The two corners of a rectangle can be given in either order, or as the
/// other two corners: the rectangle they span is the same.
pub proof fn lemma_corner_order_is_irrelevant(start: (i32, i32), current: (i32, i32))
    ensures
        ordered_rect(start, current) == ordered_rect(current, start),
        ordered_rect(start, current) == ordered_rect((start.0, current.1), (current.0, start.1)),
{
}

/// Only the rectangle matters to a border drawing: two drawings on the same
/// buffer whose corners span the same rectangle (swapped, or given as the
/// other two corners) leave the same buffer and give the same counts, when
/// the colour of each pixel is determined.
pub proof fn lemma_fill_depends_only_on_rectangle<F: Fn(i32, i32, i32, i32, i32, i32) -> (u8, u8, u8)>(
    old: Seq<u8>,
    buf1: Seq<u8>,
    buf2: Seq<u8>,
    width: i32,
    height: i32,
    win_x: i32,
    win_y: i32,
    start1: (i32, i32),
    current1: (i32, i32),
    start2: (i32, i32),
    current2: (i32, i32),
    border_width: i32,
    color_at: F,
    counts1: (usize, usize),
    counts2: (usize, usize),
)
    requires
        ordered_rect(start1, current1) == ordered_rect(start2, current2),
        deterministic_color(color_at),
        width > 0,
        height > 0,
        old.len() == width * height * 4,
        buf1.len() == old.len(),
        buf2.len() == old.len(),
        border_drawn(
            buf1,
            old,
            width,
            height,
            border_bounds(start1, current1, win_x, win_y, width, height),
            border_width,
            color_at,
            counts1,
        ),
        border_drawn(
            buf2,
            old,
            width,
            height,
            border_bounds(start2, current2, win_x, win_y, width, height),
            border_width,
            color_at,
            counts2,
        ),
    ensures
        buf1 == buf2,
        counts1 == counts2,
{
    let w = width as int;
    let h = height as int;
    let bw = border_width as int;
    let b = border_bounds(start1, current1, win_x, win_y, width, height);
    assert(b == border_bounds(start2, current2, win_x, win_y, width, height));
    assert forall|i: int| 0 <= i < buf1.len() implies buf1[i] == buf2[i] by {
        let p = i / 4;
        assert(0 <= p < w * h);
        if drawn_index(b, bw, w, p) {
            let args = ((p % w) as i32, (p / w) as i32, b.0, b.1, b.2, b.3);
            let c1 = (buf1[4 * p + 2], buf1[4 * p + 1], buf1[4 * p]);
            let c2 = (buf2[4 * p + 2], buf2[4 * p + 1], buf2[4 * p]);
            assert(color_at.ensures(args, c1) && color_at.ensures(args, c2));
            assert(c1 == c2);
            assert(i == 4 * p || i == 4 * p + 1 || i == 4 * p + 2 || i == 4 * p + 3);
        }
    }
    assert(buf1 =~= buf2);
}

/// On a transparent buffer a border is written without a single
/// overwrite, however thick it is: every pixel visit finds a new
/// transparent pixel, so the two counts agree, and both equal the number of
/// pixels of the rectangle fewer than `border_width` pixels from its edge
/// (none when the rectangle has no area).
pub proof fn lemma_clear_buffer_counts_each_border_pixel<
    F: Fn(i32, i32, i32, i32, i32, i32) -> (u8, u8, u8),
>(
    buf: Seq<u8>,
    old: Seq<u8>,
    width: i32,
    height: i32,
    b: (i32, i32, i32, i32),
    border_width: i32,
    color_at: F,
    counts: (usize, usize),
)
    requires
        border_drawn(buf, old, width, height, b, border_width, color_at, counts),
        forall|p: int| 0 <= p < width * height ==> #[trigger] old[4 * p + 3] == 0,
    ensures
        counts.0 == counts.1,
        counts.1 == if has_area(b) {
            border_area(b.0 as int, b.1 as int, b.2 as int, b.3 as int, border_width as int)
        } else {
            0
        },
{
    let w = width as int;
    let h = height as int;
    let bw = border_width as int;
    assert(Set::new(
        |p: int| 0 <= p < w * h && drawn_index(b, bw, w, p) && old[4 * p + 3] == 0,
    ) =~= Set::new(|p: int| 0 <= p < w * h && drawn_index(b, bw, w, p)));
}

/// Edge `k` of a monitor `(x, y, width, height)`: its left (0), top (1),
/// right (2) or bottom (3).
pub open spec fn monitor_edge(m: (i32, i32, u32, u32), k: int) -> int {
    if k == 0 {
        m.0 as int
    } else if k == 1 {
        m.1 as int
    } else if k == 2 {
        m.0 + m.2
    } else {
        m.1 + m.3
    }
}

/// Edge `k` of the bounding box of the first `n` monitors: the smallest
/// left or top edge, the largest right or bottom edge; with no monitor, the
/// edge of a 1920 by 1080 screen at the origin.
pub open spec fn bounding_edge(monitors: Seq<(i32, i32, u32, u32)>, n: int, k: int) -> int
    decreases n,
{
    if n <= 0 {
        if k == 2 {
            1920
        } else if k == 3 {
            1080
        } else {
            0
        }
    } else if n == 1 {
        monitor_edge(monitors[0], k)
    } else {
        let rest = bounding_edge(monitors, n - 1, k);
        let e = monitor_edge(monitors[n - 1], k);
        if k < 2 {
            if e < rest {
                e
            } else {
                rest
            }
        } else {
            if e > rest {
                e
            } else {
                rest
            }
        }
    }
}

/// The bounds `(left, top, right, bottom)` of the virtual desktop that the
/// monitors `(x, y, width, height)` make up.
pub open spec fn desktop_bounds(monitors: Seq<(i32, i32, u32, u32)>) -> (int, int, int, int) {
    let n = monitors.len() as int;
    (
        bounding_edge(monitors, n, 0),
        bounding_edge(monitors, n, 1),
        bounding_edge(monitors, n, 2),
        bounding_edge(monitors, n, 3),
    )
}

/// Whether every monitor's right and bottom edges fit in 32 bits.
pub open spec fn monitors_fit(monitors: Seq<(i32, i32, u32, u32)>) -> bool {
    forall|i: int|
        0 <= i < monitors.len() ==> {
            let m = #[trigger] monitors[i];
            &&& m.2 <= i32::MAX
            &&& m.3 <= i32::MAX
            &&& m.0 + m.2 <= i32::MAX
            &&& m.1 + m.3 <= i32::MAX
        }
}

/// The area the overlay covers: the bounding box of all monitors, each
/// given as `(x, y, width, height)`, or a 1920 by 1080 screen at the origin
/// when no monitor is known.
pub fn virtual_desktop(monitors: &[(i32, i32, u32, u32)]) -> (bounds: (i32, i32, i32, i32))
    requires
        monitors_fit(monitors@),
    ensures
        bounds.0 == desktop_bounds(monitors@).0,
        bounds.1 == desktop_bounds(monitors@).1,
        bounds.2 == desktop_bounds(monitors@).2,
        bounds.3 == desktop_bounds(monitors@).3,
{
    let ghost ms = monitors@;
    if monitors.len() == 0 {
        return (0, 0, 1920, 1080);
    }
    let (x, y, w, h) = monitors[0];
    assert(ms[0] == (x, y, w, h));
    let mut left: i32 = x;
    let mut top: i32 = y;
    let mut right: i32 = x + w as i32;
    let mut bottom: i32 = y + h as i32;
    let mut i: usize = 1;
    while i < monitors.len()
        invariant
            ms == monitors@,
            monitors_fit(ms),
            1 <= i <= ms.len(),
            left == bounding_edge(ms, i as int, 0),
            top == bounding_edge(ms, i as int, 1),
            right == bounding_edge(ms, i as int, 2),
            bottom == bounding_edge(ms, i as int, 3),
        decreases ms.len() - i,
    {
        let (x, y, w, h) = monitors[i];
        assert(ms[i as int] == (x, y, w, h));
        let r = x + w as i32;
        let b = y + h as i32;
        if x < left {
            left = x;
        }
        if y < top {
            top = y;
        }
        if r > right {
            right = r;
        }
        if b > bottom {
            bottom = b;
        }
        i = i + 1;
    }
    (left, top, right, bottom)
}

} // verus!
