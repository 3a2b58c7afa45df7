//! Where the popup's parts go: the size of its surface, the card and its
//! shadow inside it, the text areas, and the surface's place on the monitor.
use vstd::prelude::*;

verus! {

/// Height of the status card.
pub const STATUS_HEIGHT: i32 = 44;
/// Corner radius of the status card.
pub const STATUS_RADIUS: i32 = 12;
/// Space left and right of the status text.
pub const STATUS_PADDING_H: i32 = 24;
/// Distance of the status card from the top of the monitor's work area.
pub const STATUS_TOP_MARGIN: i32 = 48;
/// Room left around the status card for its shadow.
pub const STATUS_SHADOW_MARGIN: i32 = 8;
/// How far the status card's shadow is moved down and right.
pub const STATUS_SHADOW_OFFSET: i32 = 2;
/// Opacity of the status card's shadow.
pub const STATUS_SHADOW_ALPHA: u8 = 60;

/// Width of the cheat sheet card.
pub const CHEATSHEET_WIDTH: i32 = 320;
/// Height of one row of the cheat sheet.
pub const CHEATSHEET_ROW_HEIGHT: i32 = 32;
/// Space above and below the cheat sheet's rows.
pub const CHEATSHEET_PADDING_V: i32 = 20;
/// Corner radius of the cheat sheet card.
pub const CHEATSHEET_RADIUS: i32 = 14;
/// Space left and right of the cheat sheet's rows.
pub const CHEATSHEET_PADDING_H: i32 = 24;
/// Room left around the cheat sheet card for its shadow.
pub const CHEATSHEET_SHADOW_MARGIN: i32 = 12;
/// How far the cheat sheet's shadow is moved down and right.
pub const CHEATSHEET_SHADOW_OFFSET: i32 = 4;
/// Opacity of the cheat sheet's shadow.
pub const CHEATSHEET_SHADOW_ALPHA: u8 = 80;

/// Red, green and blue of the card background.
pub const CARD_RGB: (u8, u8, u8) = (28, 28, 30);
/// Opacity of the status card background (about 0.88).
pub const CARD_ALPHA_STATUS: u8 = 224;
/// Opacity of the cheat sheet card background (about 0.92).
pub const CARD_ALPHA_CHEATSHEET: u8 = 235;

/// Half of `v`, rounded toward zero, as integer division in Rust rounds.
pub open spec fn half_toward_zero(v: int) -> int {
    if v >= 0 {
        v / 2
    } else {
        -((-v) / 2)
    }
}

/// The layout of one popup card on its own surface.
#[derive(Debug, Clone, Copy, PartialEq)]
pub struct CardLayout {
    /// Width and height of the surface.
    pub surface: (i32, i32),
    /// The card on the surface: x, y, width, height.
    pub card: (i32, i32, i32, i32),
    /// Corner radius of the card.
    pub radius: i32,
    /// Top-left corner of the card's shadow on the surface.
    pub shadow: (i32, i32),
    /// Opacity of the shadow.
    pub shadow_alpha: u8,
    /// Opacity of the card background.
    pub card_alpha: u8,
    /// Top-left corner of the surface on the screen.
    pub window: (i32, i32),
}

/// The layout of the status card for a text `text_w` pixels wide, on the
/// monitor work area `(left, top, right, bottom)`, slid down by `y_offset`
/// pixels, with the area of its text: the card is the text plus padding
/// left and right, centred across the monitor near its top.
pub fn status_layout(text_w: i32, monitor_rect: (i32, i32, i32, i32), y_offset: i32) -> (layout: (
    CardLayout,
    (i32, i32, i32, i32),
))
    requires
        0 <= text_w <= i32::MAX - 64,
        i32::MIN <= monitor_rect.2 - monitor_rect.0 <= i32::MAX,
        i32::MIN <= (monitor_rect.2 - monitor_rect.0) - (text_w + 64) <= i32::MAX,
        i32::MIN <= monitor_rect.0 + half_toward_zero(
            (monitor_rect.2 - monitor_rect.0) - (text_w + 64),
        ) <= i32::MAX,
        i32::MIN <= monitor_rect.1 + 48 <= i32::MAX,
        i32::MIN <= monitor_rect.1 + 48 + y_offset <= i32::MAX,
    ensures
        ({
            let popup_w = text_w + 2 * STATUS_PADDING_H;
            let buf_w = popup_w + 2 * STATUS_SHADOW_MARGIN;
            let mon_width = monitor_rect.2 - monitor_rect.0;
            &&& layout.0.surface == (buf_w as i32, (STATUS_HEIGHT + 2 * STATUS_SHADOW_MARGIN) as i32)
            &&& layout.0.card == (
                STATUS_SHADOW_MARGIN,
                STATUS_SHADOW_MARGIN,
                popup_w as i32,
                STATUS_HEIGHT,
            )
            &&& layout.0.radius == STATUS_RADIUS
            &&& layout.0.shadow == (
                (STATUS_SHADOW_MARGIN + STATUS_SHADOW_OFFSET) as i32,
                (STATUS_SHADOW_MARGIN + STATUS_SHADOW_OFFSET) as i32,
            )
            &&& layout.0.shadow_alpha == STATUS_SHADOW_ALPHA
            &&& layout.0.card_alpha == CARD_ALPHA_STATUS
            &&& layout.0.window == (
                (monitor_rect.0 + half_toward_zero(mon_width - buf_w)) as i32,
                (monitor_rect.1 + STATUS_TOP_MARGIN + y_offset) as i32,
            )
            &&& layout.1 == (
                (STATUS_SHADOW_MARGIN + STATUS_PADDING_H) as i32,
                STATUS_SHADOW_MARGIN,
                (STATUS_SHADOW_MARGIN + popup_w - STATUS_PADDING_H) as i32,
                (STATUS_SHADOW_MARGIN + STATUS_HEIGHT) as i32,
            )
        }),
{
    let (mon_left, mon_top, mon_right, _mon_bottom) = monitor_rect;
    let mon_width = mon_right - mon_left;
    let popup_w = text_w + STATUS_PADDING_H * 2;
    let popup_h = STATUS_HEIGHT;
    let buf_w = popup_w + STATUS_SHADOW_MARGIN * 2;
    let buf_h = popup_h + STATUS_SHADOW_MARGIN * 2;
    let card_x = STATUS_SHADOW_MARGIN;
    let card_y = STATUS_SHADOW_MARGIN;
    let x = mon_left + (mon_width - buf_w) / 2;
    let y = mon_top + STATUS_TOP_MARGIN + y_offset;
    let layout = CardLayout {
        surface: (buf_w, buf_h),
        card: (card_x, card_y, popup_w, popup_h),
        radius: STATUS_RADIUS,
        shadow: (card_x + STATUS_SHADOW_OFFSET, card_y + STATUS_SHADOW_OFFSET),
        shadow_alpha: STATUS_SHADOW_ALPHA,
        card_alpha: CARD_ALPHA_STATUS,
        window: (x, y),
    };
    let text_rect = (card_x + STATUS_PADDING_H, card_y, card_x + popup_w - STATUS_PADDING_H, card_y + popup_h);
    (layout, text_rect)
}

/// The text areas of row `i` of the cheat sheet, on a surface whose card
/// starts at `(card_x, card_y)`: the key in the left half, the description
/// in the right half, each one row high.
pub open spec fn cheatsheet_row(card_x: int, card_y: int, i: int) -> (
    (int, int, int, int),
    (int, int, int, int),
) {
    let row_y = card_y + CHEATSHEET_PADDING_V + i * CHEATSHEET_ROW_HEIGHT;
    (
        (
            card_x + CHEATSHEET_PADDING_H,
            row_y,
            card_x + CHEATSHEET_WIDTH / 2,
            row_y + CHEATSHEET_ROW_HEIGHT,
        ),
        (
            card_x + CHEATSHEET_WIDTH / 2,
            row_y,
            card_x + CHEATSHEET_WIDTH - CHEATSHEET_PADDING_H,
            row_y + CHEATSHEET_ROW_HEIGHT,
        ),
    )
}

/// Whether a pair of rectangles holds the values of a pair of spec ones.
pub open spec fn rects_are(
    r: ((i32, i32, i32, i32), (i32, i32, i32, i32)),
    s: ((int, int, int, int), (int, int, int, int)),
) -> bool {
    &&& r.0.0 == s.0.0 && r.0.1 == s.0.1 && r.0.2 == s.0.2 && r.0.3 == s.0.3
    &&& r.1.0 == s.1.0 && r.1.1 == s.1.1 && r.1.2 == s.1.2 && r.1.3 == s.1.3
}

/// The layout of the cheat sheet with `row_count` rows, on the monitor work
/// area `(left, top, right, bottom)`, slid down by `y_offset` pixels, with
/// the key and description areas of each row: a card of fixed width, as
/// tall as its rows plus padding, centred on the monitor.
pub fn cheatsheet_layout(row_count: usize, monitor_rect: (i32, i32, i32, i32), y_offset: i32) -> (layout: (
    CardLayout,
    Vec<((i32, i32, i32, i32), (i32, i32, i32, i32))>,
))
    requires
        64 + 32 * row_count <= i32::MAX,
        i32::MIN <= monitor_rect.2 - monitor_rect.0 <= i32::MAX,
        i32::MIN <= monitor_rect.3 - monitor_rect.1 <= i32::MAX,
        i32::MIN <= (monitor_rect.2 - monitor_rect.0) - 344 <= i32::MAX,
        i32::MIN <= (monitor_rect.3 - monitor_rect.1) - (64 + 32 * row_count) <= i32::MAX,
        i32::MIN <= monitor_rect.0 + half_toward_zero((monitor_rect.2 - monitor_rect.0) - 344)
            <= i32::MAX,
        i32::MIN <= monitor_rect.1 + half_toward_zero(
            (monitor_rect.3 - monitor_rect.1) - (64 + 32 * row_count),
        ) <= i32::MAX,
        i32::MIN <= monitor_rect.1 + half_toward_zero(
            (monitor_rect.3 - monitor_rect.1) - (64 + 32 * row_count),
        ) + y_offset <= i32::MAX,
    ensures
        ({
            let popup_h = 2 * CHEATSHEET_PADDING_V + row_count * CHEATSHEET_ROW_HEIGHT;
            let buf_w = CHEATSHEET_WIDTH + 2 * CHEATSHEET_SHADOW_MARGIN;
            let buf_h = popup_h + 2 * CHEATSHEET_SHADOW_MARGIN;
            &&& layout.0.surface == (buf_w as i32, buf_h as i32)
            &&& layout.0.card == (
                CHEATSHEET_SHADOW_MARGIN,
                CHEATSHEET_SHADOW_MARGIN,
                CHEATSHEET_WIDTH,
                popup_h as i32,
            )
            &&& layout.0.radius == CHEATSHEET_RADIUS
            &&& layout.0.shadow == (
                (CHEATSHEET_SHADOW_MARGIN + CHEATSHEET_SHADOW_OFFSET) as i32,
                (CHEATSHEET_SHADOW_MARGIN + CHEATSHEET_SHADOW_OFFSET) as i32,
            )
            &&& layout.0.shadow_alpha == CHEATSHEET_SHADOW_ALPHA
            &&& layout.0.card_alpha == CARD_ALPHA_CHEATSHEET
            &&& layout.0.window == (
                (monitor_rect.0 + half_toward_zero((monitor_rect.2 - monitor_rect.0) - buf_w)) as i32,
                (monitor_rect.1 + half_toward_zero((monitor_rect.3 - monitor_rect.1) - buf_h)
                    + y_offset) as i32,
            )
            &&& layout.1@.len() == row_count
            &&& forall|i: int|
                0 <= i < row_count ==> rects_are(
                    #[trigger] layout.1@[i],
                    cheatsheet_row(
                        CHEATSHEET_SHADOW_MARGIN as int,
                        CHEATSHEET_SHADOW_MARGIN as int,
                        i,
                    ),
                )
        }),
{
    let (mon_left, mon_top, mon_right, mon_bottom) = monitor_rect;
    let mon_width = mon_right - mon_left;
    let mon_height = mon_bottom - mon_top;
    let rows = row_count as i32;
    let popup_w = CHEATSHEET_WIDTH;
    let popup_h = CHEATSHEET_PADDING_V * 2 + rows * CHEATSHEET_ROW_HEIGHT;
    let buf_w = popup_w + CHEATSHEET_SHADOW_MARGIN * 2;
    let buf_h = popup_h + CHEATSHEET_SHADOW_MARGIN * 2;
    let card_x = CHEATSHEET_SHADOW_MARGIN;
    let card_y = CHEATSHEET_SHADOW_MARGIN;
    let mut row_rects: Vec<((i32, i32, i32, i32), (i32, i32, i32, i32))> = Vec::new();
    let mut i: i32 = 0;
    while i < rows
        invariant
            rows == row_count,
            64 + 32 * row_count <= i32::MAX,
            0 <= i <= rows,
            card_x == CHEATSHEET_SHADOW_MARGIN,
            card_y == CHEATSHEET_SHADOW_MARGIN,
            popup_w == CHEATSHEET_WIDTH,
            row_rects@.len() == i,
            forall|j: int|
                0 <= j < i ==> rects_are(
                    #[trigger] row_rects@[j],
                    cheatsheet_row(card_x as int, card_y as int, j),
                ),
        decreases rows - i,
    {
        let row_y = card_y + CHEATSHEET_PADDING_V + i * CHEATSHEET_ROW_HEIGHT;
        let key_rect = (card_x + CHEATSHEET_PADDING_H, row_y, card_x + popup_w / 2, row_y + CHEATSHEET_ROW_HEIGHT);
        let desc_rect = (
            card_x + popup_w / 2,
            row_y,
            card_x + popup_w - CHEATSHEET_PADDING_H,
            row_y + CHEATSHEET_ROW_HEIGHT,
        );
        row_rects.push((key_rect, desc_rect));
        i = i + 1;
    }
    let x = mon_left + (mon_width - buf_w) / 2;
    let y = mon_top + (mon_height - buf_h) / 2 + y_offset;
    let layout = CardLayout {
        surface: (buf_w, buf_h),
        card: (card_x, card_y, popup_w, popup_h),
        radius: CHEATSHEET_RADIUS,
        shadow: (card_x + CHEATSHEET_SHADOW_OFFSET, card_y + CHEATSHEET_SHADOW_OFFSET),
        shadow_alpha: CHEATSHEET_SHADOW_ALPHA,
        card_alpha: CARD_ALPHA_CHEATSHEET,
        window: (x, y),
    };
    (layout, row_rects)
}

/// The layers of a card's shadow whose first layer starts at `(x, y)`:
/// three rounded rectangles, each moved one pixel further down and right
/// with a corner radius one pixel larger, at `3/3`, `2/3` and `1/3` of the
/// base opacity (rounded down). Each layer is `(x, y, radius, alpha)`.
pub fn shadow_layers(x: i32, y: i32, radius: i32, base_alpha: u8) -> (layers: Vec<(i32, i32, i32, u8)>)
    requires
        x <= i32::MAX - 3,
        y <= i32::MAX - 3,
        radius <= i32::MAX - 3,
    ensures
        layers@.len() == 3,
        forall|i: int|
            0 <= i < 3 ==> #[trigger] layers@[i] == (
                (x + i + 1) as i32,
                (y + i + 1) as i32,
                (radius + i + 1) as i32,
                (base_alpha * (3 - i) / 3) as u8,
            ),
{
    let mut layers: Vec<(i32, i32, i32, u8)> = Vec::new();
    let mut i: u32 = 0;
    while i < 3
        invariant
            i <= 3,
            x <= i32::MAX - 3,
            y <= i32::MAX - 3,
            radius <= i32::MAX - 3,
            layers@.len() == i,
            forall|j: int|
                0 <= j < i ==> #[trigger] layers@[j] == (
                    (x + j + 1) as i32,
                    (y + j + 1) as i32,
                    (radius + j + 1) as i32,
                    (base_alpha * (3 - j) / 3) as u8,
                ),
        decreases 3 - i,
    {
        let offset = (i + 1) as i32;
        assert(base_alpha * (3 - i) <= 765) by (nonlinear_arith)
            requires
                base_alpha <= 255,
                i < 3,
        ;
        let alpha = (base_alpha as u32 * (3 - i) / 3) as u8;
        layers.push((x + offset, y + offset, radius + offset, alpha));
        i = i + 1;
    }
    layers
}

} // verus!
