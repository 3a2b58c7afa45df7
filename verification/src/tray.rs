//! The tray: the signal to quit, what a menu click asks for, and the
//! pixels of the tray icon.
use vstd::prelude::*;

verus! {

/// Signal sent from the tray menu when the user asks the application to quit.
#[derive(Clone, Copy, Debug, PartialEq)]
pub struct AppExit;

/// What a click on the tray menu asks for.
#[derive(Clone, Copy, Debug, PartialEq, Eq, Structural)]
pub enum TrayAction {
    /// Quit the application.
    Quit,
    /// Turn starting with the system on or off, as given.
    SetAutostart(bool),
    /// Nothing: the click was on no item of ours.
    Ignore,
}

/// The action for a menu click on the quit item (`is_quit`), the autostart
/// item (`is_autostart`), or neither, when autostart is currently
/// `autostart_enabled`: the autostart item flips the setting.
pub fn tray_menu_action(is_quit: bool, is_autostart: bool, autostart_enabled: bool) -> (action:
    TrayAction)
    ensures
        action == if is_quit {
            TrayAction::Quit
        } else if is_autostart {
            TrayAction::SetAutostart(!autostart_enabled)
        } else {
            TrayAction::Ignore
        },
{
    if is_quit {
        TrayAction::Quit
    } else if is_autostart {
        TrayAction::SetAutostart(!autostart_enabled)
    } else {
        TrayAction::Ignore
    }
}

/// Side of the square tray icon, in pixels.
pub const ICON_SIZE: usize = 32;

/// How far, in whole pixels, column (or row) `v` of the icon lies beyond
/// the straight part of the rounded rectangle's edge, measured from the
/// icon's centre line at 15.5: the icon's rectangle is inset 4 pixels, so
/// its half-size is 11.5, and its corners have radius 5, which leaves 6.5
/// of straight edge on each side of the centre. The result is
/// `|v - 15.5| - 6.5`, an integer, computed in half-pixel units.
pub open spec fn edge_excess(v: int) -> int {
    let twice = if 2 * v - 31 >= 0 {
        2 * v - 31
    } else {
        31 - 2 * v
    };
    (twice - 13) / 2
}

/// The RGBA colour of pixel `(x, y)` of the tray icon: a warm cream canvas
/// outside a rounded rectangle, a border five pixels wide coloured by
/// quadrant (red top-left, orange top-right, purple bottom-left, blue
/// bottom-right), and white inside. Outside the corner squares the
/// distance to the rectangle is the larger of the two excesses; inside a
/// corner square it is the distance to the corner's centre, compared here
/// by its square.
pub open spec fn icon_color(x: int, y: int) -> (u8, u8, u8, u8) {
    let dx = edge_excess(x);
    let dy = edge_excess(y);
    let corner = dx > 0 && dy > 0;
    let outside = if corner {
        dx * dx + dy * dy > 25
    } else {
        dx > 5 || dy > 5
    };
    let on_border = corner || dx > 0 || dy > 0;
    if outside {
        (0xF5, 0xE6, 0xDE, 0xFF)
    } else if on_border {
        if y <= 15 && x <= 15 {
            (0xE8, 0x5D, 0x3A, 0xFF)
        } else if y <= 15 {
            (0xE8, 0xA8, 0x38, 0xFF)
        } else if x <= 15 {
            (0x7B, 0x5E, 0xA7, 0xFF)
        } else {
            (0x4A, 0x7D, 0xB5, 0xFF)
        }
    } else {
        (0xFF, 0xFF, 0xFF, 0xFF)
    }
}

fn edge_excess_of(v: i32) -> (e: i32)
    requires
        0 <= v < 32,
    ensures
        e == edge_excess(v as int),
        -7 <= e <= 9,
{
    let twice = if 2 * v - 31 >= 0 {
        2 * v - 31
    } else {
        31 - 2 * v
    };
    (twice - 13) / 2
}

/// The RGBA pixels of the tray icon, row by row.
pub fn icon_rgba() -> (rgba: Vec<u8>)
    ensures
        rgba@.len() == ICON_SIZE * ICON_SIZE * 4,
        forall|p: int|
            0 <= p < ICON_SIZE * ICON_SIZE ==> {
                let c = #[trigger] icon_color(p % 32, p / 32);
                &&& rgba@[4 * p] == c.0
                &&& rgba@[4 * p + 1] == c.1
                &&& rgba@[4 * p + 2] == c.2
                &&& rgba@[4 * p + 3] == c.3
            },
{
    let mut rgba: Vec<u8> = Vec::new();
    let mut p: usize = 0;
    while p < ICON_SIZE * ICON_SIZE
        invariant
            p <= ICON_SIZE * ICON_SIZE,
            rgba@.len() == 4 * p,
            forall|q: int|
                0 <= q < p ==> {
                    let c = #[trigger] icon_color(q % 32, q / 32);
                    &&& rgba@[4 * q] == c.0
                    &&& rgba@[4 * q + 1] == c.1
                    &&& rgba@[4 * q + 2] == c.2
                    &&& rgba@[4 * q + 3] == c.3
                },
        decreases ICON_SIZE * ICON_SIZE - p,
    {
        let x = (p % ICON_SIZE) as i32;
        let y = (p / ICON_SIZE) as i32;
        let dx = edge_excess_of(x);
        let dy = edge_excess_of(y);
        let corner = dx > 0 && dy > 0;
        assert(0 <= dx * dx <= 81 && 0 <= dy * dy <= 81) by (nonlinear_arith)
            requires
                -7 <= dx <= 9,
                -7 <= dy <= 9,
        ;
        let outside = if corner {
            dx * dx + dy * dy > 25
        } else {
            dx > 5 || dy > 5
        };
        let on_border = corner || dx > 0 || dy > 0;
        let (r, g, b, a): (u8, u8, u8, u8) = if outside {
            (0xF5, 0xE6, 0xDE, 0xFF)
        } else if on_border {
            if y <= 15 && x <= 15 {
                (0xE8, 0x5D, 0x3A, 0xFF)
            } else if y <= 15 {
                (0xE8, 0xA8, 0x38, 0xFF)
            } else if x <= 15 {
                (0x7B, 0x5E, 0xA7, 0xFF)
            } else {
                (0x4A, 0x7D, 0xB5, 0xFF)
            }
        } else {
            (0xFF, 0xFF, 0xFF, 0xFF)
        };
        assert((r, g, b, a) == icon_color(p as int % 32, p as int / 32));
        rgba.push(r);
        rgba.push(g);
        rgba.push(b);
        rgba.push(a);
        p = p + 1;
    }
    rgba
}

} // verus!
