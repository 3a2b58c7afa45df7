use holdrect::cli::CliCommand;
use holdrect::overlay::{
    apply_command, dim_outside_spotlights, expected_border_pixel_count, fill_border_pixels, needs_animation, plan_frame,
    should_show_overlay, topmost_enforce_count, virtual_desktop, FramePlan,
};
use holdrect::state::DrawingState;
use holdrect::state::normalize_rect;

#[test]
fn normalize_rect_swaps_coordinates() {
    assert_eq!(normalize_rect((100, 200), (50, 80)), (50, 80, 100, 200));
}

#[test]
fn normalize_rect_same_point_is_zero_area() {
    assert_eq!(normalize_rect((10, 10), (10, 10)), (10, 10, 10, 10));
}

#[test]
fn normalize_rect_negative_coordinates() {
    assert_eq!(normalize_rect((-100, -200), (50, 80)), (-100, -200, 50, 80));
}

#[test]
fn normalize_rect_already_normalized() {
    assert_eq!(normalize_rect((0, 0), (1920, 1080)), (0, 0, 1920, 1080));
}

#[test]
fn normalize_rect_with_i32_boundaries() {
    // start at MAX, current at MIN: should swap
    assert_eq!(
        normalize_rect((i32::MAX, i32::MAX), (i32::MIN, i32::MIN)),
        (i32::MIN, i32::MIN, i32::MAX, i32::MAX)
    );
}

#[test]
fn normalize_rect_one_axis_swapped() {
    // x already sorted (0 < 100), y needs swap (200 > 80)
    assert_eq!(
        normalize_rect((0, 200), (100, 80)),
        (0, 80, 100, 200)
    );
}

#[test]
fn normalize_rect_zero_origin() {
    assert_eq!(
        normalize_rect((0, 0), (0, 0)),
        (0, 0, 0, 0)
    );
}

#[test]
fn expected_border_pixel_count_single_pixel_rect() {
    let count = expected_border_pixel_count(5, 5, 5, 5, 1);
    assert_eq!(count, 1, "single-pixel rect should have exactly 1 border pixel");
}

#[test]
fn expected_border_pixel_count_border_1() {
    let count = expected_border_pixel_count(0, 0, 10, 10, 1);
    assert_eq!(count, 40, "10x10 rect border=1 should be 40 pixels (inclusive bounds: 11x11 area)");
}

#[test]
fn expected_border_pixel_count_border_equals_half_rect() {
    // 10x10 rect with border_width=5: all layers collapse
    // offset 0: 11*2 + 9*2 = 40
    // offset 1: 9*2 + 7*2 = 32
    // offset 2: 7*2 + 5*2 = 24
    // offset 3: 5*2 + 3*2 = 16
    // offset 4: single row = 3*2 + 1*2 = 8
    let count = expected_border_pixel_count(0, 0, 10, 10, 5);
    assert_eq!(count, 120, "10x10 rect border=5 should fill interior (120 pixels, inclusive bounds)");
}

#[test]
fn create_icon_center_is_white() {
    const SIZE: usize = 32;
    const INSET: f64 = 4.0;
    const RADIUS: f64 = 5.0;
    const BORDER_W: f64 = 5.0;
    let half = (SIZE as f64 - 1.0 - INSET * 2.0) / 2.0;
    let cx = (SIZE as f64 - 1.0) / 2.0;
    let cy = (SIZE as f64 - 1.0) / 2.0;
    let center_x = (cx as usize).min(SIZE - 1);
    let center_y = (cy as usize).min(SIZE - 1);
    let dx = (center_x as f64 - cx).abs() - (half - RADIUS);
    let dy = (center_y as f64 - cy).abs() - (half - RADIUS);
    let dist = if dx > 0.0 && dy > 0.0 {
        (dx * dx + dy * dy).sqrt()
    } else {
        dx.max(dy).max(0.0)
    };
    assert!(dist <= RADIUS - BORDER_W, "Center pixel dist={} should be inside border (interior)", dist);
}

#[test]
fn dim_outside_spotlights_fills_dark_outside_rect() {
    let width = 10i32;
    let height = 10i32;
    let mut buf = vec![0u8; (width * height * 4) as usize];

    let rects = vec![(2, 2, 7, 7)];
    dim_outside_spotlights(&mut buf, width, height, &rects, 0, 0);

    let outside_offset = (0 * width as usize + 0) * 4;
    assert_eq!(buf[outside_offset + 3], 160, "outside pixel alpha should be 160");
    assert_eq!(buf[outside_offset], 0, "B=0");
    assert_eq!(buf[outside_offset + 1], 0, "G=0");
    assert_eq!(buf[outside_offset + 2], 0, "R=0");
}

#[test]
fn dim_outside_spotlights_clears_interior() {
    let width = 10i32;
    let height = 10i32;
    let mut buf = vec![0u8; (width * height * 4) as usize];

    let rects = vec![(2, 2, 7, 7)];
    dim_outside_spotlights(&mut buf, width, height, &rects, 0, 0);

    let inside_offset = (4 * width as usize + 4) * 4;
    assert_eq!(buf[inside_offset + 3], 0, "inside pixel alpha should be 0");
}

#[test]
fn dim_outside_spotlights_noop_when_empty() {
    let width = 10i32;
    let height = 10i32;
    let mut buf = vec![0u8; (width * height * 4) as usize];

    dim_outside_spotlights(&mut buf, width, height, &[], 0, 0);

    assert!(buf.iter().all(|&b| b == 0));
}

#[test]
fn dim_outside_spotlights_mixed_spotlight_and_non_spotlight() {
    let width = 20i32;
    let height = 20i32;
    let mut buf = vec![0u8; (width * height * 4) as usize];

    let rects = vec![(5, 5, 10, 10)];
    dim_outside_spotlights(&mut buf, width, height, &rects, 0, 0);

    let inside_offset = (7 * width as usize + 7) * 4;
    assert_eq!(buf[inside_offset + 3], 0, "spotlight interior should be clear");

    let outside_offset = (0 * width as usize + 0) * 4;
    assert_eq!(buf[outside_offset + 3], 160, "outside spotlight should be dimmed");

    let non_spotlight_interior = (15 * width as usize + 15) * 4;
    assert_eq!(buf[non_spotlight_interior + 3], 160, "non-spotlight interior stays dimmed");
}

#[test]
fn dim_outside_spotlights_overlapping_rects() {
    let width = 20i32;
    let height = 20i32;
    let mut buf = vec![0u8; (width * height * 4) as usize];

    let rects = vec![(2, 2, 10, 10), (5, 5, 15, 15)];
    dim_outside_spotlights(&mut buf, width, height, &rects, 0, 0);

    let overlap_offset = (7 * width as usize + 7) * 4;
    assert_eq!(buf[overlap_offset + 3], 0, "overlap interior should be clear");

    let outside_offset = (0 * width as usize + 0) * 4;
    assert_eq!(buf[outside_offset + 3], 160, "outside both should be dimmed");
}

#[test]
fn dim_outside_spotlights_with_window_offset() {
    let width = 10i32;
    let height = 10i32;
    let mut buf = vec![0u8; (width * height * 4) as usize];

    let rects = vec![(12, 12, 17, 17)];
    dim_outside_spotlights(&mut buf, width, height, &rects, 10, 10);

    let inside_offset = (4 * width as usize + 4) * 4;
    assert_eq!(buf[inside_offset + 3], 0, "inside should be clear with offset");

    let outside_offset = 0;
    assert_eq!(buf[outside_offset + 3], 160, "outside should be dimmed with offset");
}

#[test]
fn overlay_hidden_when_no_content() {
    assert!(!should_show_overlay(false, false));
}

#[test]
fn overlay_shown_when_drawing() {
    assert!(should_show_overlay(true, false));
}

#[test]
fn overlay_shown_when_pinned() {
    assert!(should_show_overlay(false, true));
}

#[test]
fn overlay_shown_when_both() {
    assert!(should_show_overlay(true, true));
}

#[test]
fn topmost_not_enforced_when_idle() {
    // All frames: no drawing, no pinned → no enforcement
    assert_eq!(topmost_enforce_count(&[(false, false); 5]), 0);
}

#[test]
fn topmost_enforced_on_first_show() {
    // Transition: idle → drawing → should enforce
    let frames = [(false, false), (true, false)];
    assert_eq!(topmost_enforce_count(&frames), 1);
}

#[test]
fn topmost_enforced_every_visible_frame() {
    // After show, 3 more visible frames → total 3 enforcements (one per visible frame)
    // Current buggy code returns 1 (only on transition).
    // This test captures the core bug: Z-order lost mid-drag.
    let frames = [
        (false, false), // idle
        (true, false),  // start drawing → show (enforce #1)
        (true, false),  // still drawing (enforce #2)
        (true, false),  // still drawing (enforce #3)
    ];
    assert_eq!(topmost_enforce_count(&frames), 3);
}

#[test]
fn topmost_re_enforced_after_hide_show_cycle() {
    // Hide then show again → must re-enforce
    let frames = [
        (true, false),  // draw → show (enforce #1)
        (false, false), // stop → hide
        (true, false),  // draw again → show (enforce #2)
        (true, false),  // still drawing (enforce #3)
    ];
    assert_eq!(topmost_enforce_count(&frames), 3);
}


#[test]
fn dim_single_pixel_spotlight_and_empty_window() {
    let mut buf = vec![7u8; 2 * 2 * 4];
    dim_outside_spotlights(&mut buf, 2, 2, &[(0, 0, 0, 0)], 0, 0);
    assert_eq!(&buf[0..4], &[0, 0, 0, 0]);
    assert_eq!(&buf[4..8], &[0, 0, 0, 160]);
    assert_eq!(&buf[12..16], &[0, 0, 0, 160]);

    let mut buf = vec![7u8; 16];
    dim_outside_spotlights(&mut buf, 0, 2, &[(0, 0, 1, 1)], 0, 0);
    assert!(buf.iter().all(|&b| b == 7));
}

#[test]
fn dim_spotlight_outside_window_clears_nothing() {
    let mut buf = vec![0u8; 4 * 4 * 4];
    dim_outside_spotlights(&mut buf, 4, 4, &[(-50, -50, -20, -20), (10, 0, 20, 3)], 0, 0);
    assert!(buf.chunks(4).all(|px| px == [0, 0, 0, 160]));
    let mut buf = vec![0u8; 4 * 4 * 4];
    dim_outside_spotlights(&mut buf, 4, 4, &[(100, 100, 103, 103)], 50, 50);
    assert!(buf.chunks(4).all(|px| px == [0, 0, 0, 160]));
}

#[test]
fn dim_clips_rect_to_window_and_skips_reversed() {
    let mut buf = vec![0u8; 3 * 3 * 4];
    dim_outside_spotlights(&mut buf, 3, 3, &[(-10, -10, 0, 100), (2, 2, 1, 1)], 0, 0);
    for y in 0..3usize {
        for x in 0..3usize {
            let alpha = buf[(y * 3 + x) * 4 + 3];
            assert_eq!(alpha, if x == 0 { 0 } else { 160 }, "pixel {x},{y}");
        }
    }
}

#[test]
fn border_count_equals_frame_area() {
    // 11 x 7 rectangle, 3 thick: 77 - 5 * 1.
    assert_eq!(expected_border_pixel_count(0, 0, 10, 6, 3), 77 - 5 * 1);
    assert_eq!(expected_border_pixel_count(-5, -5, 5, 5, 0), 0);
    assert_eq!(expected_border_pixel_count(-5, -5, 5, 5, -3), 0);
    assert_eq!(expected_border_pixel_count(0, 0, 3, 0, 1), 4);
}

#[test]
fn topmost_count_over_mixed_frames() {
    assert_eq!(topmost_enforce_count(&[]), 0);
    assert_eq!(topmost_enforce_count(&[(false, true), (true, true), (false, false)]), 2);
}

fn solid(r: u8, g: u8, b: u8) -> impl Fn(i32, i32, i32, i32, i32, i32) -> (u8, u8, u8) {
    move |_x, _y, _x0, _y0, _x1, _y1| (r, g, b)
}

#[test]
fn fill_border_can_be_called_repeatedly_on_same_buffer() {
    let width: i32 = 200;
    let height: i32 = 200;
    let mut buffer = vec![0u8; (width * height * 4) as usize];

    let (unique1, _) = fill_border_pixels(&mut buffer, width, height, 0, 0, (10, 10), (50, 50), 4, solid(255, 0, 0));
    assert!(unique1 > 0, "first frame should draw pixels");

    buffer.fill(0);

    let (unique2, _) = fill_border_pixels(&mut buffer, width, height, 0, 0, (20, 20), (80, 80), 4, solid(255, 0, 0));
    assert!(unique2 > 0, "second frame should draw pixels on reused buffer");

    let check_x = 76usize;
    let check_y = 20usize;
    let offset = check_y * width as usize * 4 + check_x * 4;
    assert_eq!(buffer[offset + 3], 255, "frame 2 border pixel should have alpha=255");
    assert_eq!(buffer[offset + 2], 255, "frame 2 border pixel should have r=255");
}

#[test]
fn fill_border_no_duplicate_pixel_writes_at_corners() {
    let width: i32 = 100;
    let height: i32 = 100;
    let border_width = 4;
    let (x0, y0, x1, y1) = (10, 10, 90, 90);
    let mut buffer = vec![0u8; (width * height * 4) as usize];

    let (unique_written, total_calls) =
        fill_border_pixels(&mut buffer, width, height, 0, 0, (x0, y0), (x1, y1), border_width, solid(255, 0, 0));
    let expected = expected_border_pixel_count(x0, y0, x1, y1, border_width);

    assert_eq!(total_calls, expected, "total set_pixel calls should equal expected unique count");
    assert_eq!(unique_written, expected, "unique pixels written ({unique_written}) should equal expected ({expected})");
}

#[test]
fn fill_border_writes_correct_pixel_count_for_small_rect() {
    let width: i32 = 50;
    let height: i32 = 50;
    let border_width = 2;
    let (x0, y0, x1, y1) = (5, 5, 15, 15);
    let mut buffer = vec![0u8; (width * height * 4) as usize];

    let (unique_written, total_calls) =
        fill_border_pixels(&mut buffer, width, height, 0, 0, (x0, y0), (x1, y1), border_width, solid(0, 255, 0));
    let expected = expected_border_pixel_count(x0, y0, x1, y1, border_width);

    assert_eq!(total_calls, expected, "small rect total calls mismatch: got {total_calls}, expected {expected}");
    assert_eq!(unique_written, expected, "small rect unique pixels mismatch: got {unique_written}, expected {expected}");
}

#[test]
fn fill_border_zero_area_rect_writes_nothing() {
    let width: i32 = 50;
    let height: i32 = 50;
    let mut buffer = vec![0u8; (width * height * 4) as usize];

    let (unique, total) = fill_border_pixels(&mut buffer, width, height, 0, 0, (10, 10), (10, 10), 4, solid(255, 0, 0));

    assert_eq!(unique, 0, "zero-area rect should write no pixels");
    assert_eq!(total, 0, "zero-area rect should make no set_pixel calls");
    assert!(buffer.iter().all(|&b| b == 0), "buffer should remain all zeros");
}

#[test]
fn fill_border_respects_window_offset() {
    let width: i32 = 100;
    let height: i32 = 100;
    let mut buffer = vec![0u8; (width * height * 4) as usize];

    let (unique, _) = fill_border_pixels(&mut buffer, width, height, 500, 500, (510, 510), (520, 520), 2, solid(255, 0, 0));
    assert!(unique > 0, "should draw pixels within window bounds");

    let offset = 10 * width as usize * 4 + 10 * 4;
    assert_eq!(buffer[offset + 3], 255, "pixel at buffer (10,10) should be drawn");
}

#[test]
fn fill_border_negative_width_returns_zero() {
    let mut buffer = vec![0u8; 100];
    let (unique, total) = fill_border_pixels(&mut buffer, -1, 100, 0, 0, (0, 0), (10, 10), 4, solid(255, 0, 0));
    assert_eq!(unique, 0);
    assert_eq!(total, 0);
}

#[test]
fn fill_border_negative_height_returns_zero() {
    let mut buffer = vec![0u8; 100];
    let (unique, total) = fill_border_pixels(&mut buffer, 100, -1, 0, 0, (0, 0), (10, 10), 4, solid(255, 0, 0));
    assert_eq!(unique, 0);
    assert_eq!(total, 0);
}

#[test]
fn fill_border_width_1() {
    let mut buffer = vec![0u8; (100 * 100 * 4) as usize];
    let (unique, total) = fill_border_pixels(&mut buffer, 100, 100, 0, 0, (10, 10), (20, 20), 1, solid(255, 0, 0));
    let expected = expected_border_pixel_count(10, 10, 20, 20, 1);
    assert_eq!(unique, expected, "border_width=1 should match expected count");
    assert_eq!(total, expected, "no duplicate writes with border_width=1");
}

#[test]
fn fill_border_rect_entirely_outside_window() {
    let mut buffer = vec![0u8; (100 * 100 * 4) as usize];
    let (unique, _) = fill_border_pixels(&mut buffer, 100, 100, 0, 0, (200, 200), (300, 300), 4, solid(255, 0, 0));
    assert_eq!(unique, 0, "rect outside window should write nothing");
    assert!(buffer.iter().all(|&b| b == 0), "buffer should remain all zeros");
}

#[test]
fn fill_border_rect_partially_clipped() {
    let mut buffer = vec![0u8; (50 * 50 * 4) as usize];
    let (unique, total) = fill_border_pixels(&mut buffer, 50, 50, 0, 0, (-10, -10), (30, 30), 2, solid(0, 0, 255));
    assert!(unique > 0, "partially visible rect should draw some pixels");
    let expected = expected_border_pixel_count(0, 0, 30, 30, 2);
    assert_eq!(unique, expected, "visible portion pixel count should match expected");
    assert_eq!(total, expected, "no duplicate writes in clipped rect");
}

#[test]
fn fill_border_negative_start_coords() {
    let mut buffer = vec![0u8; (100 * 100 * 4) as usize];
    let (unique, _) = fill_border_pixels(&mut buffer, 100, 100, -60, -60, (-50, -50), (-40, -40), 2, solid(255, 255, 0));
    assert!(unique > 0, "negative global coords should still draw into buffer");
    let offset = 10 * 100 * 4 + 10 * 4;
    assert_eq!(buffer[offset + 3], 255, "pixel at buffer (10,10) should be drawn");
}

#[test]
fn fill_border_writes_bgra_and_stays_inside_a_thin_rect() {
    // A border thicker than half the rectangle's height: the rings meet after
    // the first, which covers both rows, so nothing is drawn above or below.
    let mut buffer = vec![0u8; 20 * 10 * 4];
    let (unique, total) = fill_border_pixels(&mut buffer, 20, 10, 0, 0, (2, 2), (12, 3), 3, solid(10, 20, 30));
    assert_eq!(total, 22);
    assert_eq!(unique, 22);
    assert_eq!(total, expected_border_pixel_count(2, 2, 12, 3, 3));
    let off = 2 * 20 * 4 + 2 * 4;
    assert_eq!(&buffer[off..off + 4], &[30, 20, 10, 255]);
    assert!(buffer[..2 * 20 * 4].iter().all(|&b| b == 0), "rows 0 and 1 untouched");
    assert!(buffer[4 * 20 * 4..].iter().all(|&b| b == 0), "rows 4 and below untouched");
}

#[test]
fn fill_border_default_width_on_three_pixel_tall_rect() {
    let mut buffer = vec![0u8; 20 * 20 * 4];
    let counts = fill_border_pixels(&mut buffer, 20, 20, 0, 0, (0, 5), (10, 7), 4, solid(1, 2, 3));
    assert_eq!(counts, (33, 33));
    let off = (8 * 20 + 5) * 4;
    assert_eq!(buffer[off + 3], 0, "pixel below the rectangle stays transparent");
    let off = (4 * 20 + 5) * 4;
    assert_eq!(buffer[off + 3], 0, "pixel above the rectangle stays transparent");
    let painted = buffer.chunks(4).filter(|px| px[3] == 255).count();
    assert_eq!(painted, 33);
}

#[test]
fn fill_border_wider_than_rect_visits_each_pixel_once() {
    for &(x0, y0, x1, y1, bw) in &[(0, 0, 10, 10, 6), (0, 0, 10, 10, 7), (0, 0, 10, 2, 3), (0, 0, 10, 3, 9), (4, 4, 5, 12, 3)] {
        let mut buffer = vec![0u8; 16 * 16 * 4];
        let (unique, total) = fill_border_pixels(&mut buffer, 16, 16, 0, 0, (x0, y0), (x1, y1), bw, solid(9, 9, 9));
        let expected = expected_border_pixel_count(x0, y0, x1, y1, bw);
        assert_eq!(unique, expected);
        assert_eq!(total, expected);
        let painted = buffer.chunks(4).filter(|px| px[3] == 255).count();
        assert_eq!(painted, expected);
    }
}

#[test]
fn fill_border_counts_only_previously_transparent_pixels() {
    let mut buffer = vec![0u8; 30 * 30 * 4];
    let (first, _) = fill_border_pixels(&mut buffer, 30, 30, 0, 0, (5, 5), (20, 20), 2, solid(1, 2, 3));
    let (second, total) = fill_border_pixels(&mut buffer, 30, 30, 0, 0, (5, 5), (20, 20), 2, solid(4, 5, 6));
    assert_eq!(first, expected_border_pixel_count(5, 5, 20, 20, 2));
    assert_eq!(second, 0);
    assert_eq!(total, first);
    let off = 5 * 30 * 4 + 5 * 4;
    assert_eq!(&buffer[off..off + 4], &[6, 5, 4, 255]);
}

#[test]
fn fill_border_colour_sees_pixel_and_held_rect() {
    let mut buffer = vec![0u8; 40 * 40 * 4];
    let (_, _) = fill_border_pixels(&mut buffer, 40, 40, 0, 0, (30, 30), (-5, 8), 1, |x, y, x0, y0, x1, y1| {
        (x as u8, y as u8, (x0 + y0 * 2 + x1 * 3 + y1 * 4) as u8)
    });
    // Held rectangle is (0, 8)-(30, 30).
    let off = (8 * 40 + 17) * 4;
    assert_eq!(&buffer[off..off + 4], &[(8 * 2 + 30 * 3 + 30 * 4) as u8, 8, 17, 255]);
}

#[test]
fn frame_plan_hides_once_when_nothing_to_show() {
    assert!(matches!(plan_frame(&DrawingState::Idle, &[], false, true), FramePlan::Hide));
    assert!(matches!(plan_frame(&DrawingState::Armed, &[], true, false), FramePlan::StayHidden));
}

#[test]
fn frame_plan_draws_pinned_then_active_rect() {
    let drawing = DrawingState::Drawing { start: (50, 60), current: (10, 20) };
    let pinned = [(1, 2, 3, 4, true), (5, 6, 7, 8, false)];
    match plan_frame(&drawing, &pinned, true, false) {
        FramePlan::Draw { spotlights, borders } => {
            assert_eq!(spotlights, vec![(1, 2, 3, 4), (10, 20, 50, 60)]);
            assert_eq!(borders, vec![((1, 2), (3, 4)), ((5, 6), (7, 8)), ((50, 60), (10, 20))]);
        }
        other => panic!("expected a drawn frame, got {other:?}"),
    }
    match plan_frame(&drawing, &[], false, true) {
        FramePlan::Draw { spotlights, borders } => {
            assert!(spotlights.is_empty());
            assert_eq!(borders, vec![((50, 60), (10, 20))]);
        }
        other => panic!("expected a drawn frame, got {other:?}"),
    }
}

#[test]
fn frame_plan_shows_pinned_without_drawing() {
    match plan_frame(&DrawingState::Idle, &[(0, 0, 9, 9, true)], true, false) {
        FramePlan::Draw { spotlights, borders } => {
            assert_eq!(spotlights, vec![(0, 0, 9, 9)]);
            assert_eq!(borders, vec![((0, 0), (9, 9))]);
        }
        other => panic!("expected a drawn frame, got {other:?}"),
    }
}

#[test]
fn animation_continues_while_anything_moves() {
    let drawing = DrawingState::Drawing { start: (0, 0), current: (1, 1) };
    assert!(needs_animation(&drawing, false, false));
    assert!(needs_animation(&DrawingState::Idle, true, false));
    assert!(needs_animation(&DrawingState::Armed, false, true));
    assert!(!needs_animation(&DrawingState::Armed, false, false));
}

#[test]
fn desktop_covers_all_monitors() {
    assert_eq!(virtual_desktop(&[]), (0, 0, 1920, 1080));
    assert_eq!(virtual_desktop(&[(0, 0, 2560, 1440)]), (0, 0, 2560, 1440));
    let monitors = [(0, 0, 1920, 1080), (1920, -200, 1280, 1024), (-1280, 100, 1280, 720)];
    assert_eq!(virtual_desktop(&monitors), (-1280, -200, 3200, 1080));
}

#[test]
fn expected_count_for_borders_wider_than_half_the_rect() {
    assert_eq!(expected_border_pixel_count(0, 0, 10, 10, 6), 121);
    assert_eq!(expected_border_pixel_count(0, 0, 10, 10, 7), 121);
    assert_eq!(expected_border_pixel_count(0, 0, 10, 2, 3), 33);
    assert_eq!(expected_border_pixel_count(0, 0, 10, 3, 9), 44);
    assert_eq!(expected_border_pixel_count(3, 3, 3, 3, 100), 1);
}

#[test]
fn commands_pin_rects_move_the_magnifier_and_clear() {
    let mut pinned: Vec<(i32, i32, i32, i32, bool)> = vec![(1, 2, 3, 4, true)];
    let mut magnifier: Option<((i32, i32), u32)> = None;
    apply_command(&mut pinned, &mut magnifier, &CliCommand::Rect { x1: 10, y1: 20, x2: 30, y2: 40 }, 2);
    assert_eq!(pinned, vec![(1, 2, 3, 4, true), (10, 20, 30, 40, false)]);
    assert_eq!(magnifier, None);
    apply_command(&mut pinned, &mut magnifier, &CliCommand::Magnifier { x: 5, y: 6, zoom: Some("3".to_owned()) }, 3);
    assert_eq!(magnifier, Some(((5, 6), 3)));
    assert_eq!(pinned.len(), 2);
    apply_command(&mut pinned, &mut magnifier, &CliCommand::Magnifier { x: 7, y: 8, zoom: None }, 2);
    assert_eq!(magnifier, Some(((7, 8), 2)));
    apply_command(&mut pinned, &mut magnifier, &CliCommand::Clear, 2);
    assert!(pinned.is_empty());
    assert_eq!(magnifier, None);
}
