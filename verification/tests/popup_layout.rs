use holdrect::popup::layout::{cheatsheet_layout, shadow_layers, status_layout, CardLayout};

#[test]
fn status_card_wraps_text_and_centres_near_top() {
    let (layout, text) = status_layout(100, (0, 0, 1920, 1040), 0);
    assert_eq!(
        layout,
        CardLayout {
            surface: (164, 60),
            card: (8, 8, 148, 44),
            radius: 12,
            shadow: (10, 10),
            shadow_alpha: 60,
            card_alpha: 224,
            window: ((1920 - 164) / 2, 48),
        }
    );
    assert_eq!(text, (32, 8, 132, 52));
}

#[test]
fn status_card_slides_with_offset_on_second_monitor() {
    let (layout, _) = status_layout(10, (1920, 100, 3840, 1180), -96);
    assert_eq!(layout.window, (1920 + (1920 - 74) / 2, 100 + 48 - 96));
}

#[test]
fn status_card_wider_than_monitor_rounds_toward_zero() {
    // (10 - 165) / 2 rounds toward zero: -77, not -78.
    let (layout, _) = status_layout(101, (0, 0, 10, 10), 0);
    assert_eq!(layout.surface.0, 165);
    assert_eq!(layout.window.0, -77);
}

#[test]
fn cheatsheet_grows_with_rows_and_centres() {
    let (layout, rows) = cheatsheet_layout(5, (0, 0, 1920, 1080), 10);
    assert_eq!(
        layout,
        CardLayout {
            surface: (344, 224),
            card: (12, 12, 320, 200),
            radius: 14,
            shadow: (16, 16),
            shadow_alpha: 80,
            card_alpha: 235,
            window: ((1920 - 344) / 2, (1080 - 224) / 2 + 10),
        }
    );
    assert_eq!(rows.len(), 5);
    assert_eq!(rows[0], ((36, 32, 172, 64), (172, 32, 308, 64)));
    assert_eq!(rows[4], ((36, 160, 172, 192), (172, 160, 308, 192)));
}

#[test]
fn shadow_fades_over_three_layers() {
    assert_eq!(shadow_layers(10, 10, 12, 60), vec![(11, 11, 13, 60), (12, 12, 14, 40), (13, 13, 15, 20)]);
    assert_eq!(shadow_layers(0, 0, 14, 80), vec![(1, 1, 15, 80), (2, 2, 16, 53), (3, 3, 17, 26)]);
}
