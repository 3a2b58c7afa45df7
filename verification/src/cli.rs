//! Command-line parsing: resident start, memory report, and the visual
//! commands (rectangle, magnifier, clear) sent to a running instance.
use vstd::prelude::*;

use crate::text::{all_dec_digits, dec_digit, dec_digit_value, dec_value, text_is};

verus! {

/// An error answered to a command: a stable machine-readable code and a
/// message for people.
#[derive(Debug, Clone, PartialEq, Eq)]
pub struct CommandError {
    pub code: String,
    pub message: String,
}

impl View for CommandError {
    type V = (Seq<char>, Seq<char>);

    open spec fn view(&self) -> (Seq<char>, Seq<char>) {
        (self.code@, self.message@)
    }
}

impl CommandError {
    pub fn new(code: &str, message: &str) -> (e: Self)
        ensures
            e@ == (code@, message@),
    {
        CommandError { code: String::from_str(code), message: String::from_str(message) }
    }

    /// Whether the error carries the given code.
    pub fn is_code(&self, code: &str) -> (same: bool)
        ensures
            same == (self.code@ == code@),
    {
        text_is(self.code.as_str(), code)
    }

    /// The text shown to people: the code, a colon, and the message.
    pub fn to_display_string(&self) -> (text: String)
        ensures
            text@ == self.code@ + ": "@ + self.message@,
    {
        let mut text = self.code.clone();
        text.append(": ");
        text.append(self.message.as_str());
        text
    }
}

/// A visual command for the running instance. The magnifier's zoom is kept as
/// the text that was given; reading it as a number is left to the caller,
/// since it is a floating-point value.
#[derive(Debug, Clone, PartialEq)]
pub enum CliCommand {
    Rect { x1: i32, y1: i32, x2: i32, y2: i32 },
    Magnifier { x: i32, y: i32, zoom: Option<String> },
    Clear,
}

/// The value of a command: its texts taken by their characters.
pub enum CliCommandView {
    Rect { x1: i32, y1: i32, x2: i32, y2: i32 },
    Magnifier { x: i32, y: i32, zoom: Option<Seq<char>> },
    Clear,
}

impl View for CliCommand {
    type V = CliCommandView;

    open spec fn view(&self) -> CliCommandView {
        match self {
            CliCommand::Rect { x1, y1, x2, y2 } => CliCommandView::Rect {
                x1: *x1,
                y1: *y1,
                x2: *x2,
                y2: *y2,
            },
            CliCommand::Magnifier { x, y, zoom } => CliCommandView::Magnifier {
                x: *x,
                y: *y,
                zoom: match zoom {
                    Some(z) => Some(z@),
                    None => None,
                },
            },
            CliCommand::Clear => CliCommandView::Clear,
        }
    }
}

/// How the program was started.
#[derive(Debug, Clone, PartialEq)]
pub enum StartupMode {
    Resident { first_launch: bool },
    Client(CliCommand),
    MemoryReport,
}

/// The value of a startup mode.
pub enum StartupModeView {
    Resident { first_launch: bool },
    Client(CliCommandView),
    MemoryReport,
}

impl View for StartupMode {
    type V = StartupModeView;

    open spec fn view(&self) -> StartupModeView {
        match self {
            StartupMode::Resident { first_launch } => StartupModeView::Resident {
                first_launch: *first_launch,
            },
            StartupMode::Client(c) => StartupModeView::Client(c@),
            StartupMode::MemoryReport => StartupModeView::MemoryReport,
        }
    }
}

/// The value of a result whose error is a command error.
pub open spec fn result_view<T: View>(r: Result<T, CommandError>) -> Result<
    T::V,
    (Seq<char>, Seq<char>),
> {
    match r {
        Ok(v) => Ok(v@),
        Err(e) => Err(e@),
    }
}

/// The number that a text denotes when read as a signed decimal: an optional
/// `+` or `-` followed by one or more decimal digits and nothing else.
pub open spec fn signed_decimal_value(s: Seq<char>) -> Option<int> {
    let signed = s.len() > 0 && (s[0] == '+' || s[0] == '-');
    let digits = if signed {
        s.drop_first()
    } else {
        s
    };
    if digits.len() > 0 && all_dec_digits(digits) {
        Some(
            if signed && s[0] == '-' {
                -dec_value(digits)
            } else {
                dec_value(digits)
            },
        )
    } else {
        None
    }
}

/// The 32-bit signed integer a text denotes, if it denotes one in range.
pub open spec fn i32_from_text(s: Seq<char>) -> Option<i32> {
    match signed_decimal_value(s) {
        Some(v) => if i32::MIN <= v <= i32::MAX {
            Some(v as i32)
        } else {
            None
        },
        None => None,
    }
}

/// The error for a coordinate argument that is not a 32-bit integer.
pub open spec fn coordinate_error(name: Seq<char>) -> (Seq<char>, Seq<char>) {
    ("invalid_coordinate"@, name + " must be a signed 32-bit integer"@)
}

/// The outcome of reading one coordinate argument.
pub open spec fn coordinate_result(text: Seq<char>, name: Seq<char>) -> Result<
    i32,
    (Seq<char>, Seq<char>),
> {
    match i32_from_text(text) {
        Some(v) => Ok(v),
        None => Err(coordinate_error(name)),
    }
}

/// The error for arguments that form no command.
pub open spec fn usage_error() -> (Seq<char>, Seq<char>) {
    ("usage"@, "usage: holdrect rect x1 y1 x2 y2 | magnifier x y [zoom] | clear"@)
}

/// The error for a rectangle with no width or no height.
pub open spec fn invalid_rect_error() -> (Seq<char>, Seq<char>) {
    ("invalid_rect"@, "rectangle width and height must be non-zero"@)
}

/// The outcome of reading a visual command from its arguments. Coordinates
/// are read left to right and the first one that fails is reported.
pub open spec fn visual_command_outcome(args: Seq<Seq<char>>) -> Result<
    CliCommandView,
    (Seq<char>, Seq<char>),
> {
    if args.len() == 5 && args[0] == "rect"@ {
        match coordinate_result(args[1], "x1"@) {
            Err(e) => Err(e),
            Ok(x1) => match coordinate_result(args[2], "y1"@) {
                Err(e) => Err(e),
                Ok(y1) => match coordinate_result(args[3], "x2"@) {
                    Err(e) => Err(e),
                    Ok(x2) => match coordinate_result(args[4], "y2"@) {
                        Err(e) => Err(e),
                        Ok(y2) => if x1 == x2 || y1 == y2 {
                            Err(invalid_rect_error())
                        } else {
                            Ok(CliCommandView::Rect { x1, y1, x2, y2 })
                        },
                    },
                },
            },
        }
    } else if (args.len() == 3 || args.len() == 4) && args[0] == "magnifier"@ {
        match coordinate_result(args[1], "x"@) {
            Err(e) => Err(e),
            Ok(x) => match coordinate_result(args[2], "y"@) {
                Err(e) => Err(e),
                Ok(y) => Ok(
                    CliCommandView::Magnifier {
                        x,
                        y,
                        zoom: if args.len() == 4 {
                            Some(args[3])
                        } else {
                            None
                        },
                    },
                ),
            },
        }
    } else if args.len() == 1 && args[0] == "clear"@ {
        Ok(CliCommandView::Clear)
    } else {
        Err(usage_error())
    }
}

/// The outcome of reading all startup arguments: none starts the resident
/// instance for the first time, `--daemon` alone starts it silently,
/// `--mem-report` alone asks for a memory report, and anything else is a
/// visual command for a running instance.
pub open spec fn startup_outcome(args: Seq<Seq<char>>) -> Result<
    StartupModeView,
    (Seq<char>, Seq<char>),
> {
    if args.len() == 0 {
        Ok(StartupModeView::Resident { first_launch: true })
    } else if args.len() == 1 && args[0] == "--daemon"@ {
        Ok(StartupModeView::Resident { first_launch: false })
    } else if args.len() == 1 && args[0] == "--mem-report"@ {
        Ok(StartupModeView::MemoryReport)
    } else {
        match visual_command_outcome(args) {
            Ok(c) => Ok(StartupModeView::Client(c)),
            Err(e) => Err(e),
        }
    }
}

/// The characters of each argument.
pub open spec fn args_view(args: &[String]) -> Seq<Seq<char>> {
    args@.map_values(|s: String| s@)
}

/// Selects how the program runs from its command-line arguments.
pub fn parse_startup_args(args: &[String]) -> (r: Result<StartupMode, CommandError>)
    ensures
        result_view(r) == startup_outcome(args_view(args)),
{
    let ghost a = args_view(args);
    if args.len() == 0 {
        return Ok(StartupMode::Resident { first_launch: true });
    }
    assert(a[0] == args@[0]@);
    if args.len() == 1 && text_is(args[0].as_str(), "--daemon") {
        return Ok(StartupMode::Resident { first_launch: false });
    }
    if args.len() == 1 && text_is(args[0].as_str(), "--mem-report") {
        return Ok(StartupMode::MemoryReport);
    }
    match parse_visual_command(args) {
        Ok(c) => Ok(StartupMode::Client(c)),
        Err(e) => Err(e),
    }
}

/// Reads a visual command: `rect x1 y1 x2 y2`, `magnifier x y [zoom]` or
/// `clear`.
pub fn parse_visual_command(args: &[String]) -> (r: Result<CliCommand, CommandError>)
    ensures
        result_view(r) == visual_command_outcome(args_view(args)),
{
    let ghost a = args_view(args);
    let n = args.len();
    if n == 0 {
        return Err(usage_error_value());
    }
    assert(a[0] == args@[0]@);
    let first = args[0].as_str();
    if n == 5 && text_is(first, "rect") {
        assert(a[1] == args@[1]@ && a[2] == args@[2]@ && a[3] == args@[3]@ && a[4]
            == args@[4]@);
        let x1 = match parse_i32(args[1].as_str(), "x1") {
            Ok(v) => v,
            Err(e) => return Err(e),
        };
        let y1 = match parse_i32(args[2].as_str(), "y1") {
            Ok(v) => v,
            Err(e) => return Err(e),
        };
        let x2 = match parse_i32(args[3].as_str(), "x2") {
            Ok(v) => v,
            Err(e) => return Err(e),
        };
        let y2 = match parse_i32(args[4].as_str(), "y2") {
            Ok(v) => v,
            Err(e) => return Err(e),
        };
        if x1 == x2 || y1 == y2 {
            return Err(
                CommandError::new("invalid_rect", "rectangle width and height must be non-zero"),
            );
        }
        return Ok(CliCommand::Rect { x1, y1, x2, y2 });
    }
    if (n == 3 || n == 4) && text_is(first, "magnifier") {
        assert(a[1] == args@[1]@ && a[2] == args@[2]@);
        let x = match parse_i32(args[1].as_str(), "x") {
            Ok(v) => v,
            Err(e) => return Err(e),
        };
        let y = match parse_i32(args[2].as_str(), "y") {
            Ok(v) => v,
            Err(e) => return Err(e),
        };
        let zoom = if n == 4 {
            assert(a[3] == args@[3]@);
            Some(args[3].clone())
        } else {
            None
        };
        return Ok(CliCommand::Magnifier { x, y, zoom });
    }
    if n == 1 && text_is(first, "clear") {
        return Ok(CliCommand::Clear);
    }
    Err(usage_error_value())
}

fn usage_error_value() -> (e: CommandError)
    ensures
        e@ == usage_error(),
{
    CommandError::new("usage", "usage: holdrect rect x1 y1 x2 y2 | magnifier x y [zoom] | clear")
}

/// `min(v * 10 + d, cap)` computed from `min(v, cap)`: once a magnitude has
/// reached the cap it stays there.
proof fn lemma_saturating_step(v: int, d: int, cap: int)
    requires
        v >= 0,
        0 <= d < 10,
        cap > 0,
    ensures
        (if v >= cap {
            cap
        } else {
            v
        }) * 10 + d >= cap <==> v * 10 + d >= cap,
        v < cap ==> (if v >= cap {
            cap
        } else {
            v
        }) * 10 + d == v * 10 + d,
{
}

/// Reads a coordinate argument named `name` as a 32-bit signed integer.
pub fn parse_i32(value: &str, name: &str) -> (r: Result<i32, CommandError>)
    ensures
        result_view(r) == coordinate_result(value@, name@),
        r matches Ok(v) ==> i32_from_text(value@) == Some(v),
        r is Err <==> i32_from_text(value@) is None,
{
    let n = value.unicode_len();
    let signed = n > 0 && (value.get_char(0) == '+' || value.get_char(0) == '-');
    let negative = signed && value.get_char(0) == '-';
    let from: usize = if signed {
        1
    } else {
        0
    };
    let ghost digits = value@.skip(from as int);
    assert(digits =~= (if signed {
        value@.drop_first()
    } else {
        value@
    }));
    let cap: u64 = 2147483649;
    let mut magnitude: u64 = 0;
    let mut i: usize = from;
    let mut ok = n > from;
    while ok && i < n
        invariant
            n == value@.len(),
            from <= i <= n,
            digits == value@.skip(from as int),
            digits.len() == n - from,
            ok ==> from < n,
            cap == 2147483649,
            ok ==> all_dec_digits(digits.take(i - from)),
            ok ==> magnitude == (if dec_value(digits.take(i - from)) >= cap {
                cap as int
            } else {
                dec_value(digits.take(i - from))
            }),
            ok ==> magnitude <= cap,
            !ok ==> (digits.len() == 0 || !all_dec_digits(digits)),
        decreases n - i,
    {
        let c = value.get_char(i);
        let ghost k: int = i - from;
        assert(digits[k] == c);
        match dec_digit(c) {
            None => {
                ok = false;
            },
            Some(d) => {
                let ghost prefix = digits.take(k + 1);
                let ghost before = digits.take(k);
                assert(prefix.drop_last() =~= before);
                assert(prefix.last() == c);
                assert(dec_value(prefix) == dec_value(before) * 10 + d);
                assert(dec_value(before) >= 0) by {
                    lemma_dec_value_nonneg(before);
                }
                proof {
                    lemma_saturating_step(dec_value(before), d as int, cap as int);
                }
                let next = magnitude * 10 + d as u64;
                magnitude = if next >= cap {
                    cap
                } else {
                    next
                };
                assert(all_dec_digits(prefix)) by {
                    assert forall|j: int| 0 <= j < prefix.len() implies (#[trigger] dec_digit_value(
                        prefix[j],
                    )) is Some by {
                        if j < k {
                            assert(prefix[j] == before[j]);
                        }
                    }
                }
            },
        }
        i = i + 1;
    }
    if ok {
        assert(digits.take(n - from) =~= digits);
    }
    let in_range = ok && (if negative {
        magnitude <= 2147483648
    } else {
        magnitude <= 2147483647
    });
    if !in_range {
        let mut message = String::from_str(name);
        message.append(" must be a signed 32-bit integer");
        return Err(CommandError { code: String::from_str("invalid_coordinate"), message });
    }
    assert(n > 0 ==> value@[0] == value.view()[0]);
    assert(dec_value(digits) == magnitude);
    assert(digits.len() > 0 && all_dec_digits(digits));
    assert(signed == (value@.len() > 0 && (value@[0] == '+' || value@[0] == '-')));
    assert(negative == (signed && value@[0] == '-'));
    assert(signed_decimal_value(value@) == Some(
        if negative {
            -(magnitude as int)
        } else {
            magnitude as int
        },
    ));
    let v: i32 = if negative {
        if magnitude == 2147483648 {
            i32::MIN
        } else {
            -(magnitude as i32)
        }
    } else {
        magnitude as i32
    };
    assert(i32_from_text(value@) == Some(v));
    Ok(v)
}

/// A string of decimal digits denotes a number that is not negative.
pub proof fn lemma_dec_value_nonneg(s: Seq<char>)
    requires
        all_dec_digits(s),
    ensures
        dec_value(s) >= 0,
    decreases s.len(),
{
    if s.len() > 0 {
        let p = s.drop_last();
        assert(all_dec_digits(p)) by {
            assert forall|i: int| 0 <= i < p.len() implies (#[trigger] dec_digit_value(
                p[i],
            )) is Some by {
                assert(p[i] == s[i]);
                assert(dec_digit_value(s[i]) is Some);
            }
        }
        lemma_dec_value_nonneg(p);
        assert(dec_digit_value(s[s.len() - 1]) is Some);
    }
}

/// The character of a decimal digit.
pub open spec fn digit_char(d: nat) -> char {
    ((d as int) + ('0' as int)) as char
}

/// The decimal digits of a natural number, without leading zeros.
pub open spec fn decimal_text(n: nat) -> Seq<char>
    decreases n,
{
    if n < 10 {
        seq![digit_char(n)]
    } else {
        decimal_text(n / 10).push(digit_char(n % 10))
    }
}

/// The usual decimal text of an integer: a minus sign before negatives.
pub open spec fn signed_text(v: int) -> Seq<char> {
    if v < 0 {
        seq!['-'] + decimal_text((-v) as nat)
    } else {
        decimal_text(v as nat)
    }
}

/// The decimal text of a natural number is a non-empty run of digits, with
/// no sign, that reads back as the number.
pub proof fn lemma_decimal_text_reads_back(n: nat)
    ensures
        decimal_text(n).len() > 0,
        all_dec_digits(decimal_text(n)),
        dec_value(decimal_text(n)) == n,
        decimal_text(n)[0] != '-' && decimal_text(n)[0] != '+',
    decreases n,
{
    if n < 10 {
        let t = decimal_text(n);
        assert(t.drop_last() =~= Seq::<char>::empty());
        assert(dec_digit_value(t[0]) == Some(n as u32));
        assert(t.last() == t[0]);
        assert(dec_value(t) == dec_value(t.drop_last()) * 10 + n);
    } else {
        lemma_decimal_text_reads_back(n / 10);
        let p = decimal_text(n / 10);
        let t = decimal_text(n);
        assert(t.drop_last() =~= p);
        assert(dec_digit_value(digit_char(n % 10)) == Some((n % 10) as u32));
        assert forall|i: int| 0 <= i < t.len() implies (#[trigger] dec_digit_value(t[i])) is Some by {
            if i < p.len() {
                assert(t[i] == p[i]);
            }
        }
        assert(t[0] == p[0]);
        assert(t.last() == digit_char(n % 10));
        assert(dec_value(t) == dec_value(p) * 10 + (n % 10) as int);
        assert((n / 10) * 10 + n % 10 == n) by (nonlinear_arith);
    }
}

/// Reading back the decimal text of any 32-bit integer gives that integer.
pub proof fn lemma_i32_text_round_trip(v: i32)
    ensures
        i32_from_text(signed_text(v as int)) == Some(v),
{
    if v < 0 {
        let m = (-(v as int)) as nat;
        lemma_decimal_text_reads_back(m);
        let t = signed_text(v as int);
        assert(t.drop_first() =~= decimal_text(m));
        assert(t[0] == '-');
    } else {
        lemma_decimal_text_reads_back(v as nat);
    }
}

/// A rectangle command that is accepted always has a non-zero width and
/// height.
pub proof fn lemma_accepted_rect_is_not_degenerate(args: Seq<Seq<char>>)
    ensures
        visual_command_outcome(args) matches Ok(CliCommandView::Rect { x1, y1, x2, y2 }) ==> x1
            != x2 && y1 != y2,
{
}

} // verus!
