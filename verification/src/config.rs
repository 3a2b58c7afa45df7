//! Settings: the modifier key, the border width and the border colour.
use vstd::prelude::*;

use crate::text::{all_hex_digits, ascii_lower, eq_ignore_ascii_case, hex_digit, hex_digit_value, hex_value, lemma_hex_value_bound, pow16, text_is};

verus! {

/// How the border of a rectangle is coloured.
#[derive(Debug, Clone, Copy, PartialEq, Eq, Structural)]
pub enum ColorMode {
    Solid { r: u8, g: u8, b: u8 },
    Rainbow,
}

/// The effective settings.
#[derive(Debug, Clone, PartialEq)]
pub struct AppConfig {
    pub modifier_vk_codes: Vec<u32>,
    pub border_width: i32,
    pub color_mode: ColorMode,
}

/// The settings as a configuration file states them: each key may be absent.
#[derive(Debug, Clone, PartialEq)]
pub struct RawConfig {
    pub modifier: Option<String>,
    pub border_width: Option<i32>,
    pub color: Option<String>,
}

/// The colour used when none is configured or the configured one is not
/// understood: solid red.
pub open spec fn default_color() -> ColorMode {
    ColorMode::Solid { r: 255, g: 0, b: 0 }
}

/// The virtual-key codes of the Alt keys (generic, left, right).
pub open spec fn alt_codes() -> Seq<u32> {
    seq![0x12u32, 0xA4u32, 0xA5u32]
}

/// The virtual-key codes that a modifier name stands for. Names are matched
/// exactly (case matters); any other name means Alt.
pub open spec fn modifier_codes_for(name: Seq<char>) -> Seq<u32> {
    if name == "Alt"@ {
        alt_codes()
    } else if name == "Ctrl"@ {
        seq![0x11u32, 0xA2u32, 0xA3u32]
    } else if name == "Shift"@ {
        seq![0x10u32, 0xA0u32, 0xA1u32]
    } else if name == "Win"@ {
        seq![0x5Bu32, 0x5Cu32]
    } else {
        alt_codes()
    }
}

/// The word that selects the animated rainbow border, in lower case.
pub open spec fn rainbow_word() -> Seq<char> {
    seq!['r', 'a', 'i', 'n', 'b', 'o', 'w']
}

/// The text with one leading `#` removed, if it has one.
pub open spec fn strip_hash(s: Seq<char>) -> Seq<char> {
    if s.len() > 0 && s[0] == '#' {
        s.drop_first()
    } else {
        s
    }
}

/// The value of a colour code of exactly six hexadecimal digits, read as
/// an unsigned hexadecimal number; nothing else is a colour code.
pub open spec fn six_char_hex_value(hex: Seq<char>) -> Option<int> {
    if hex.len() == 6 && all_hex_digits(hex) {
        Some(hex_value(hex))
    } else {
        None
    }
}

/// The colour that a configured colour text names: "rainbow" in any ASCII
/// case is the rainbow; otherwise exactly six hexadecimal digits, with or
/// without a leading `#`, give red, green and blue from its high, middle and
/// low bytes; anything else falls back to solid red.
pub open spec fn color_from_text(s: Seq<char>) -> ColorMode {
    if eq_ignore_ascii_case(s, rainbow_word()) {
        ColorMode::Rainbow
    } else {
        match six_char_hex_value(strip_hash(s)) {
            Some(v) => ColorMode::Solid {
                r: (v / 65536 % 256) as u8,
                g: (v / 256 % 256) as u8,
                b: (v % 256) as u8,
            },
            None => default_color(),
        }
    }
}

/// `v` limited to the range from `lo` to `hi`.
pub open spec fn clamp_i32(v: i32, lo: i32, hi: i32) -> i32 {
    if v < lo {
        lo
    } else if v > hi {
        hi
    } else {
        v
    }
}

/// Whether a character, folded to ASCII lower case, is `lower`.
fn is_letter_ignoring_case(c: char, lower: char, upper: char) -> (same: bool)
    requires
        'a' <= lower <= 'z',
        upper as int == lower as int - 32,
    ensures
        same == (ascii_lower(c) == lower),
{
    c == lower || c == upper
}

/// Whether the text is "rainbow" in any ASCII case.
fn is_rainbow(s: &str) -> (yes: bool)
    ensures
        yes == eq_ignore_ascii_case(s@, rainbow_word()),
{
    let n = s.unicode_len();
    if n != 7 {
        return false;
    }
    let ok = is_letter_ignoring_case(s.get_char(0), 'r', 'R') && is_letter_ignoring_case(
        s.get_char(1),
        'a',
        'A',
    ) && is_letter_ignoring_case(s.get_char(2), 'i', 'I') && is_letter_ignoring_case(
        s.get_char(3),
        'n',
        'N',
    ) && is_letter_ignoring_case(s.get_char(4), 'b', 'B') && is_letter_ignoring_case(
        s.get_char(5),
        'o',
        'O',
    ) && is_letter_ignoring_case(s.get_char(6), 'w', 'W');
    proof {
        let w = rainbow_word();
        assert forall|i: int| 0 <= i < 7 implies ascii_lower(w[i]) == w[i] by {}
        if ok {
            assert forall|i: int| 0 <= i < s@.len() implies ascii_lower(s@[i]) == ascii_lower(
                w[i],
            ) by {}
        }
    }
    ok
}

/// Reads `s[from..]` as a hexadecimal number, when every character there is
/// a hexadecimal digit and there are at most six of them.
fn hex_number(s: &str, from: usize) -> (v: Option<u32>)
    requires
        from <= s@.len(),
        s@.len() - from <= 6,
    ensures
        v matches Some(x) ==> all_hex_digits(s@.skip(from as int)) && x == hex_value(
            s@.skip(from as int),
        ),
        v is None ==> !all_hex_digits(s@.skip(from as int)),
{
    let n = s.unicode_len();
    let ghost digits = s@.skip(from as int);
    let mut value: u32 = 0;
    let mut i: usize = from;
    while i < n
        invariant
            n == s@.len(),
            from <= i <= n,
            n - from <= 6,
            digits == s@.skip(from as int),
            all_hex_digits(digits.take(i - from)),
            value == hex_value(digits.take(i - from)),
            value < pow16((i - from) as nat),
        decreases n - i,
    {
        let c = s.get_char(i);
        let ghost k: int = i - from;
        assert(digits[k] == c);
        match hex_digit(c) {
            None => {
                assert(!all_hex_digits(digits));
                return None;
            },
            Some(d) => {
                let ghost prefix = digits.take(k + 1);
                assert(prefix.drop_last() =~= digits.take(k));
                assert(prefix.last() == c);
                assert(pow16((k + 1) as nat) == 16 * pow16(k as nat));
                assert(pow16(k as nat) <= pow16(5)) by {
                    assert(pow16(0) == 1);
                    assert(pow16(1) == 16);
                    assert(pow16(2) == 256);
                    assert(pow16(3) == 4096);
                    assert(pow16(4) == 65536);
                    assert(pow16(5) == 1048576);
                }
                assert(value * 16 + d < pow16(k as nat) * 16) by (nonlinear_arith)
                    requires
                        value < pow16(k as nat),
                        d < 16,
                ;
                assert(pow16(k as nat) * 16 <= 1048576 * 16) by (nonlinear_arith)
                    requires
                        pow16(k as nat) <= 1048576,
                ;
                value = value * 16 + d;
                assert(all_hex_digits(prefix)) by {
                    assert forall|j: int| 0 <= j < prefix.len() implies (#[trigger] hex_digit_value(
                        prefix[j],
                    )) is Some by {
                        if j < k {
                            assert(prefix[j] == digits.take(k)[j]);
                        }
                    }
                }
            },
        }
        i = i + 1;
    }
    assert(digits.take(n - from) =~= digits);
    Some(value)
}

/// Parses a colour setting: "rainbow" (any ASCII case) or exactly six
/// hexadecimal digits of an RGB code, with or without a leading `#`. Anything else falls
/// back to solid red.
pub fn parse_color(s: &str) -> (mode: ColorMode)
    ensures
        mode == color_from_text(s@),
{
    if is_rainbow(s) {
        return ColorMode::Rainbow;
    }
    let n = s.unicode_len();
    let start: usize = if n > 0 && s.get_char(0) == '#' {
        1
    } else {
        0
    };
    let ghost hex = strip_hash(s@);
    assert(hex =~= s@.skip(start as int));
    if n - start == 6 {
        if let Some(val) = hex_number(s, start) {
            proof {
                lemma_hex_value_bound(hex);
                assert(pow16(hex.len()) <= 16777216) by {
                    assert(pow16(0) == 1);
                    assert(pow16(1) == 16);
                    assert(pow16(2) == 256);
                    assert(pow16(3) == 4096);
                    assert(pow16(4) == 65536);
                    assert(pow16(5) == 1048576);
                    assert(pow16(6) == 16777216);
                }
            }
            let r = (val / 65536) as u8;
            let g = ((val / 256) % 256) as u8;
            let b = (val % 256) as u8;
            return ColorMode::Solid { r, g, b };
        }
    }
    ColorMode::Solid { r: 255, g: 0, b: 0 }
}

/// The virtual-key codes for a modifier name ("Alt", "Ctrl", "Shift" or
/// "Win"); any other name gives the Alt codes.
pub fn modifier_vk_codes(name: &str) -> (codes: Vec<u32>)
    ensures
        codes@ == modifier_codes_for(name@),
{
    if text_is(name, "Alt") {
        vec![0x12, 0xA4, 0xA5]
    } else if text_is(name, "Ctrl") {
        vec![0x11, 0xA2, 0xA3]
    } else if text_is(name, "Shift") {
        vec![0x10, 0xA0, 0xA1]
    } else if text_is(name, "Win") {
        vec![0x5B, 0x5C]
    } else {
        vec![0x12, 0xA4, 0xA5]
    }
}

impl RawConfig {
    /// The settings of a configuration file whose keys may stand at its top
    /// (`self`) or in its `[general]` table (`general`): each key that the
    /// table gives wins over the same key at the top.
    pub fn merged_with_general(self, general: RawConfig) -> (merged: RawConfig)
        ensures
            merged.modifier == (if general.modifier is Some {
                general.modifier
            } else {
                self.modifier
            }),
            merged.border_width == (if general.border_width is Some {
                general.border_width
            } else {
                self.border_width
            }),
            merged.color == (if general.color is Some {
                general.color
            } else {
                self.color
            }),
    {
        let modifier = match general.modifier {
            Some(m) => Some(m),
            None => self.modifier,
        };
        let border_width = match general.border_width {
            Some(b) => Some(b),
            None => self.border_width,
        };
        let color = match general.color {
            Some(c) => Some(c),
            None => self.color,
        };
        RawConfig { modifier, border_width, color }
    }
}

impl Default for AppConfig {
    fn default() -> (cfg: Self)
        ensures
            cfg.modifier_vk_codes@ == alt_codes(),
            cfg.border_width == 4,
            cfg.color_mode == default_color(),
    {
        AppConfig {
            modifier_vk_codes: vec![0x12, 0xA4, 0xA5],
            border_width: 4,
            color_mode: ColorMode::Solid { r: 255, g: 0, b: 0 },
        }
    }
}

impl AppConfig {
    /// The effective settings for what a configuration file states: the
    /// modifier defaults to Alt, the border width to 4 and is held between
    /// 1 and 20, and the colour defaults to solid red.
    pub fn from_raw(raw: &RawConfig) -> (cfg: Self)
        ensures
            cfg.modifier_vk_codes@ == match raw.modifier {
                Some(name) => modifier_codes_for(name@),
                None => alt_codes(),
            },
            cfg.border_width == clamp_i32(
                match raw.border_width {
                    Some(w) => w,
                    None => 4,
                },
                1,
                20,
            ),
            cfg.color_mode == match raw.color {
                Some(text) => color_from_text(text@),
                None => default_color(),
            },
    {
        let modifier_vk_codes = match &raw.modifier {
            Some(name) => modifier_vk_codes(name.as_str()),
            None => modifier_vk_codes("Alt"),
        };
        let requested: i32 = match raw.border_width {
            Some(w) => w,
            None => 4,
        };
        let border_width: i32 = if requested < 1 {
            1
        } else if requested > 20 {
            20
        } else {
            requested
        };
        let color_mode = match &raw.color {
            Some(text) => parse_color(text.as_str()),
            None => ColorMode::Solid { r: 255, g: 0, b: 0 },
        };
        AppConfig { modifier_vk_codes, border_width, color_mode }
    }
}

} // verus!
