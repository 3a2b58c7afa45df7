//! The status and cheat-sheet popup: which content it shows and the phases
//! of its slide-in, hold and slide-out animation.
//!
//! Time is given in milliseconds on any clock that does not go backwards.
//! Vertical offsets are floating-point values that the caller computes (they
//! follow a spring curve); the popup only carries them, as the bit patterns
//! of `f64` values, and never computes with them.
use vstd::prelude::*;

use crate::state::DrawingState;

pub mod layout;

verus! {

/// How long the popup slides in, in milliseconds.
pub const SLIDE_IN_DURATION_MS: u64 = 350;

/// How long a status popup stays before sliding out, in milliseconds.
pub const HOLD_DURATION_MS: u64 = 1000;

/// How long the popup slides out, in milliseconds.
pub const SLIDE_OUT_DURATION_MS: u64 = 200;

/// The bits of the off-screen starting offset, -96.0.
pub const START_Y_OFFSET_BITS: u64 = 0xC058_0000_0000_0000;

/// The bits of the resting offset, 0.0.
pub const TARGET_Y_OFFSET_BITS: u64 = 0;

/// The text of the status popup for the pin and spotlight toggles.
pub open spec fn status_text_for(pinned: bool, spotlight: bool) -> Seq<char> {
    match (pinned, spotlight) {
        (false, false) => "Transient"@,
        (true, false) => "Pinned"@,
        (false, true) => "Spotlight"@,
        (true, true) => "Pinned \u{00b7} Spotlight"@,
    }
}

/// The status line shown when a rectangle's mode changes.
pub fn build_status_text(pinned: bool, spotlight: bool) -> (text: String)
    ensures
        text@ == status_text_for(pinned, spotlight),
{
    match (pinned, spotlight) {
        (false, false) => String::from_str("Transient"),
        (true, false) => String::from_str("Pinned"),
        (false, true) => String::from_str("Spotlight"),
        (true, true) => String::from_str("Pinned \u{00b7} Spotlight"),
    }
}

/// What the popup shows.
#[derive(Debug, Clone, Copy, PartialEq, Eq, Structural)]
pub enum PopupContent {
    Status,
    Cheatsheet,
}

/// The animation phase of the popup. Each phase records when it began; the
/// sliding phases also record the offset they started from.
#[derive(Debug, Clone, Copy, PartialEq, Eq, Structural)]
pub enum PopupPhase {
    Hidden,
    SlidingIn { started_at: u64, from_y: u64 },
    Holding { started_at: u64 },
    SlidingOut { started_at: u64, from_y: u64 },
}

/// What the popup reacts to.
#[derive(Debug, Clone, Copy, PartialEq, Eq, Structural)]
pub enum PopupEvent {
    /// A digit key: 1 and 2 toggle pin and spotlight, 3 the magnifier.
    DigitPressed(u8),
    /// The cheat-sheet key went down.
    ToggleHelp,
    /// The cheat-sheet key went up.
    HideHelp,
    /// Anything else.
    Other,
}

/// The parts of the application state that decide what the popup shows.
#[derive(Debug, Clone, Copy, PartialEq, Eq, Structural)]
pub struct PopupContext {
    /// Whether the modifier is held: armed or drawing.
    pub modifier_active: bool,
    pub pinned_active: bool,
    pub spotlight_active: bool,
    pub magnifier_active: bool,
}

impl PopupContext {
    /// The context for a drawing state and the three toggles.
    pub fn new(
        drawing: &DrawingState,
        pinned_active: bool,
        spotlight_active: bool,
        magnifier_active: bool,
    ) -> (c: Self)
        ensures
            c.modifier_active == !(*drawing is Idle),
            c.pinned_active == pinned_active,
            c.spotlight_active == spotlight_active,
            c.magnifier_active == magnifier_active,
    {
        let modifier_active = match drawing {
            DrawingState::Idle => false,
            _ => true,
        };
        PopupContext { modifier_active, pinned_active, spotlight_active, magnifier_active }
    }
}

/// The rows of the cheat sheet for a modifier name: key on the left, action
/// on the right.
pub open spec fn cheatsheet_rows_for(name: Seq<char>) -> Seq<(Seq<char>, Seq<char>)> {
    seq![
        (name + " + drag"@, "Draw"@),
        ("1"@, "Pin"@),
        ("2"@, "Spotlight"@),
        ("3"@, "Magnifier"@),
        ("Esc"@, "Clear"@),
        (name + " + `"@, "Help"@),
    ]
}

/// The characters of each row of the cheat sheet.
pub open spec fn rows_view(rows: Seq<(String, String)>) -> Seq<(Seq<char>, Seq<char>)> {
    rows.map_values(|r: (String, String)| (r.0@, r.1@))
}

/// Time passed since `started_at`, zero when the clock reads earlier.
pub open spec fn elapsed(now: u64, started_at: u64) -> int {
    if now >= started_at {
        now - started_at
    } else {
        0
    }
}

/// The phase after time passes: sliding in turns to holding after the
/// slide-in time; a status popup that has been held for the hold time starts
/// sliding out from rest (a cheat sheet is held until it is dismissed); and
/// sliding out ends hidden after the slide-out time.
pub open spec fn tick_phase(content: PopupContent, phase: PopupPhase, now: u64) -> PopupPhase {
    match phase {
        PopupPhase::SlidingIn { started_at, .. } => if elapsed(now, started_at)
            >= SLIDE_IN_DURATION_MS {
            PopupPhase::Holding { started_at: now }
        } else {
            phase
        },
        PopupPhase::Holding { started_at } => if content == PopupContent::Status && elapsed(
            now,
            started_at,
        ) >= HOLD_DURATION_MS {
            PopupPhase::SlidingOut { started_at: now, from_y: TARGET_Y_OFFSET_BITS }
        } else {
            phase
        },
        PopupPhase::SlidingOut { started_at, .. } => if elapsed(now, started_at)
            >= SLIDE_OUT_DURATION_MS {
            PopupPhase::Hidden
        } else {
            phase
        },
        PopupPhase::Hidden => phase,
    }
}

/// The phase after a status message is shown: a hidden popup slides in
/// from the start; one sliding in keeps sliding; a held one is held anew;
/// one sliding out turns back and slides in from where it is.
pub open spec fn show_status_phase(phase: PopupPhase, now: u64, current_y: u64) -> PopupPhase {
    match phase {
        PopupPhase::Hidden => PopupPhase::SlidingIn { started_at: now, from_y: START_Y_OFFSET_BITS },
        PopupPhase::SlidingIn { .. } => phase,
        PopupPhase::Holding { .. } => PopupPhase::Holding { started_at: now },
        PopupPhase::SlidingOut { .. } => PopupPhase::SlidingIn { started_at: now, from_y: current_y },
    }
}

/// The content and phase after the cheat sheet is asked for: a hidden popup
/// slides in; a visible cheat sheet stays as it is; a visible status popup
/// is replaced at once and held; one sliding out turns back.
pub open spec fn show_cheatsheet_state(
    content: PopupContent,
    phase: PopupPhase,
    now: u64,
    current_y: u64,
) -> (PopupContent, PopupPhase) {
    match phase {
        PopupPhase::Hidden => (
            PopupContent::Cheatsheet,
            PopupPhase::SlidingIn { started_at: now, from_y: START_Y_OFFSET_BITS },
        ),
        PopupPhase::SlidingIn { .. } | PopupPhase::Holding { .. } => if content
            == PopupContent::Cheatsheet {
            (content, phase)
        } else {
            (PopupContent::Cheatsheet, PopupPhase::Holding { started_at: now })
        },
        PopupPhase::SlidingOut { .. } => (
            PopupContent::Cheatsheet,
            PopupPhase::SlidingIn { started_at: now, from_y: current_y },
        ),
    }
}

/// The phase after the cheat sheet is dismissed: a visible cheat sheet
/// starts sliding out from where it is; anything else is left alone.
pub open spec fn hide_cheatsheet_phase(
    content: PopupContent,
    phase: PopupPhase,
    now: u64,
    current_y: u64,
) -> PopupPhase {
    if content != PopupContent::Cheatsheet {
        phase
    } else {
        match phase {
            PopupPhase::SlidingIn { .. } | PopupPhase::Holding { .. } => PopupPhase::SlidingOut {
                started_at: now,
                from_y: current_y,
            },
            _ => phase,
        }
    }
}

/// Whether a visible cheat sheet holds off status messages.
pub open spec fn cheatsheet_blocks_status(content: PopupContent, phase: PopupPhase) -> bool {
    content == PopupContent::Cheatsheet && phase != PopupPhase::Hidden
}

/// The status message that an event asks for in a context, if any: digits
/// 1 and 2 show the pin and spotlight state, and digit 3 announces the
/// magnifier when it is on; all only while the modifier is held, and not
/// while the cheat sheet is up.
pub open spec fn status_request(
    content: PopupContent,
    phase: PopupPhase,
    event: PopupEvent,
    context: PopupContext,
) -> Option<Seq<char>> {
    match event {
        PopupEvent::DigitPressed(d) => if cheatsheet_blocks_status(content, phase) {
            None
        } else if d == 3 {
            if context.magnifier_active && context.modifier_active {
                Some("Magnifier"@)
            } else {
                None
            }
        } else if d == 1 || d == 2 {
            if context.modifier_active {
                Some(status_text_for(context.pinned_active, context.spotlight_active))
            } else {
                None
            }
        } else {
            None
        },
        _ => None,
    }
}

/// The popup: its content, its animation phase, the status line and the
/// cheat-sheet rows.
pub struct PopupManager {
    content: PopupContent,
    phase: PopupPhase,
    status_text: String,
    cheatsheet_rows: Vec<(String, String)>,
}

impl PopupManager {
    pub closed spec fn content_spec(&self) -> PopupContent {
        self.content
    }

    pub closed spec fn phase_spec(&self) -> PopupPhase {
        self.phase
    }

    pub closed spec fn status_text_spec(&self) -> Seq<char> {
        self.status_text@
    }

    pub closed spec fn rows_spec(&self) -> Seq<(Seq<char>, Seq<char>)> {
        rows_view(self.cheatsheet_rows@)
    }

    /// A hidden status popup with the cheat sheet for the given modifier.
    pub fn new(modifier_name: &str) -> (m: Self)
        ensures
            m.content_spec() == PopupContent::Status,
            m.phase_spec() == PopupPhase::Hidden,
            m.status_text_spec() == Seq::<char>::empty(),
            m.rows_spec() == cheatsheet_rows_for(modifier_name@),
    {
        PopupManager {
            content: PopupContent::Status,
            phase: PopupPhase::Hidden,
            status_text: String::new(),
            cheatsheet_rows: build_cheatsheet_rows(modifier_name),
        }
    }

    /// Reacts to an event: shows a status message, or shows or dismisses
    /// the cheat sheet. `current_y` is the bits of the offset the popup is
    /// at now.
    pub fn on_event(&mut self, event: &PopupEvent, context: &PopupContext, now: u64, current_y: u64)
        ensures
            ({
                let c = old(self).content_spec();
                let p = old(self).phase_spec();
                match *event {
                    PopupEvent::ToggleHelp => {
                        let (c2, p2) = show_cheatsheet_state(c, p, now, current_y);
                        &&& final(self).content_spec() == c2
                        &&& final(self).phase_spec() == p2
                        &&& final(self).status_text_spec() == old(self).status_text_spec()
                    },
                    PopupEvent::HideHelp => {
                        &&& final(self).content_spec() == c
                        &&& final(self).phase_spec() == hide_cheatsheet_phase(c, p, now, current_y)
                        &&& final(self).status_text_spec() == old(self).status_text_spec()
                    },
                    _ => match status_request(c, p, *event, *context) {
                        Some(text) => {
                            &&& final(self).content_spec() == PopupContent::Status
                            &&& final(self).phase_spec() == show_status_phase(p, now, current_y)
                            &&& final(self).status_text_spec() == text
                        },
                        None => {
                            &&& final(self).content_spec() == c
                            &&& final(self).phase_spec() == p
                            &&& final(self).status_text_spec() == old(self).status_text_spec()
                        },
                    },
                }
            }),
            final(self).rows_spec() == old(self).rows_spec(),
    {
        match event {
            PopupEvent::DigitPressed(d) => {
                if self.content == PopupContent::Cheatsheet && self.phase != PopupPhase::Hidden {
                    return;
                }
                if *d == 3 {
                    if context.magnifier_active && context.modifier_active {
                        self.show_status("Magnifier", now, current_y);
                    }
                } else if *d == 1 || *d == 2 {
                    if context.modifier_active {
                        let text = build_status_text(context.pinned_active, context.spotlight_active);
                        self.show_status(text.as_str(), now, current_y);
                    }
                }
            },
            PopupEvent::ToggleHelp => {
                self.show_cheatsheet(now, current_y);
            },
            PopupEvent::HideHelp => {
                self.hide_cheatsheet(now, current_y);
            },
            PopupEvent::Other => {},
        }
    }

    /// Shows a status message.
    pub fn show_status(&mut self, text: &str, now: u64, current_y: u64)
        ensures
            final(self).content_spec() == PopupContent::Status,
            final(self).phase_spec() == show_status_phase(old(self).phase_spec(), now, current_y),
            final(self).status_text_spec() == text@,
            final(self).rows_spec() == old(self).rows_spec(),
    {
        self.status_text = String::from_str(text);
        self.content = PopupContent::Status;
        match self.phase {
            PopupPhase::Hidden => {
                self.phase = PopupPhase::SlidingIn { started_at: now, from_y: START_Y_OFFSET_BITS };
            },
            PopupPhase::SlidingIn { .. } => {},
            PopupPhase::Holding { .. } => {
                self.phase = PopupPhase::Holding { started_at: now };
            },
            PopupPhase::SlidingOut { .. } => {
                self.phase = PopupPhase::SlidingIn { started_at: now, from_y: current_y };
            },
        }
    }

    /// Shows the cheat sheet.
    pub fn show_cheatsheet(&mut self, now: u64, current_y: u64)
        ensures
            (final(self).content_spec(), final(self).phase_spec()) == show_cheatsheet_state(
                old(self).content_spec(),
                old(self).phase_spec(),
                now,
                current_y,
            ),
            final(self).status_text_spec() == old(self).status_text_spec(),
            final(self).rows_spec() == old(self).rows_spec(),
    {
        match self.phase {
            PopupPhase::Hidden => {
                self.content = PopupContent::Cheatsheet;
                self.phase = PopupPhase::SlidingIn { started_at: now, from_y: START_Y_OFFSET_BITS };
            },
            PopupPhase::SlidingIn { .. } | PopupPhase::Holding { .. } => {
                if self.content == PopupContent::Cheatsheet {
                    return;
                }
                self.content = PopupContent::Cheatsheet;
                self.phase = PopupPhase::Holding { started_at: now };
            },
            PopupPhase::SlidingOut { .. } => {
                self.content = PopupContent::Cheatsheet;
                self.phase = PopupPhase::SlidingIn { started_at: now, from_y: current_y };
            },
        }
    }

    /// Dismisses the cheat sheet, if it is what the popup shows.
    pub fn hide_cheatsheet(&mut self, now: u64, current_y: u64)
        ensures
            final(self).content_spec() == old(self).content_spec(),
            final(self).phase_spec() == hide_cheatsheet_phase(
                old(self).content_spec(),
                old(self).phase_spec(),
                now,
                current_y,
            ),
            final(self).status_text_spec() == old(self).status_text_spec(),
            final(self).rows_spec() == old(self).rows_spec(),
    {
        if self.content != PopupContent::Cheatsheet {
            return;
        }
        match self.phase {
            PopupPhase::SlidingIn { .. } | PopupPhase::Holding { .. } => {
                self.phase = PopupPhase::SlidingOut { started_at: now, from_y: current_y };
            },
            _ => {},
        }
    }

    /// Advances the animation to the time `now`.
    pub fn tick(&mut self, now: u64)
        ensures
            final(self).content_spec() == old(self).content_spec(),
            final(self).phase_spec() == tick_phase(old(self).content_spec(), old(self).phase_spec(), now),
            final(self).status_text_spec() == old(self).status_text_spec(),
            final(self).rows_spec() == old(self).rows_spec(),
    {
        let new_phase = match self.phase {
            PopupPhase::SlidingIn { started_at, .. } => {
                let elapsed = if now >= started_at {
                    now - started_at
                } else {
                    0
                };
                if elapsed >= SLIDE_IN_DURATION_MS {
                    Some(PopupPhase::Holding { started_at: now })
                } else {
                    None
                }
            },
            PopupPhase::Holding { started_at } => {
                let elapsed = if now >= started_at {
                    now - started_at
                } else {
                    0
                };
                if self.content == PopupContent::Cheatsheet {
                    None
                } else if elapsed >= HOLD_DURATION_MS {
                    Some(PopupPhase::SlidingOut { started_at: now, from_y: TARGET_Y_OFFSET_BITS })
                } else {
                    None
                }
            },
            PopupPhase::SlidingOut { started_at, .. } => {
                let elapsed = if now >= started_at {
                    now - started_at
                } else {
                    0
                };
                if elapsed >= SLIDE_OUT_DURATION_MS {
                    Some(PopupPhase::Hidden)
                } else {
                    None
                }
            },
            PopupPhase::Hidden => None,
        };
        if let Some(phase) = new_phase {
            self.phase = phase;
        }
    }

    /// Whether the popup needs frames drawn: whenever it is not hidden.
    pub fn needs_frame(&self) -> (b: bool)
        ensures
            b == (self.phase_spec() != PopupPhase::Hidden),
    {
        !matches!(self.phase, PopupPhase::Hidden)
    }

    /// Whether the popup is on screen.
    pub fn is_visible(&self) -> (b: bool)
        ensures
            b == (self.phase_spec() != PopupPhase::Hidden),
    {
        self.needs_frame()
    }

    /// What the popup shows.
    pub fn content(&self) -> (c: &PopupContent)
        ensures
            *c == self.content_spec(),
    {
        &self.content
    }

    /// The animation phase.
    pub fn phase(&self) -> (p: &PopupPhase)
        ensures
            *p == self.phase_spec(),
    {
        &self.phase
    }

    /// The status line.
    pub fn status_text(&self) -> (t: &str)
        ensures
            t@ == self.status_text_spec(),
    {
        self.status_text.as_str()
    }

    /// The rows of the cheat sheet.
    pub fn cheatsheet_rows(&self) -> (rows: &[(String, String)])
        ensures
            rows_view(rows@) == self.rows_spec(),
    {
        self.cheatsheet_rows.as_slice()
    }

    /// Rebuilds the cheat sheet for another modifier name.
    pub fn update_modifier_name(&mut self, name: &str)
        ensures
            final(self).content_spec() == old(self).content_spec(),
            final(self).phase_spec() == old(self).phase_spec(),
            final(self).status_text_spec() == old(self).status_text_spec(),
            final(self).rows_spec() == cheatsheet_rows_for(name@),
    {
        self.cheatsheet_rows = build_cheatsheet_rows(name);
    }
}

/// A row of the cheat sheet.
fn row(key: String, action: &str) -> (r: (String, String))
    ensures
        r.0@ == key@,
        r.1@ == action@,
{
    (key, String::from_str(action))
}

/// The rows of the cheat sheet for a modifier name.
fn build_cheatsheet_rows(name: &str) -> (rows: Vec<(String, String)>)
    ensures
        rows_view(rows@) == cheatsheet_rows_for(name@),
{
    let mut drag_label = String::from_str(name);
    drag_label.append(" + drag");
    let mut help_label = String::from_str(name);
    help_label.append(" + `");
    let rows = vec![
        row(drag_label, "Draw"),
        row(String::from_str("1"), "Pin"),
        row(String::from_str("2"), "Spotlight"),
        row(String::from_str("3"), "Magnifier"),
        row(String::from_str("Esc"), "Clear"),
        row(help_label, "Help"),
    ];
    assert(rows_view(rows@) =~= cheatsheet_rows_for(name@));
    rows
}

/// A cheat sheet is never dismissed by the passing of time, only when it is
/// asked to hide.
pub proof fn lemma_cheatsheet_has_no_hold_timer(started_at: u64, now: u64)
    ensures
        tick_phase(PopupContent::Cheatsheet, (PopupPhase::Holding { started_at }), now) == (
        PopupPhase::Holding { started_at }),
{
}

/// A status popup goes away on its own: once held for the hold time it
/// slides out from rest, and once slid out for the slide-out time it is
/// hidden.
pub proof fn lemma_status_popup_times_out(started_at: u64, now: u64, later: u64)
    requires
        now >= started_at + HOLD_DURATION_MS,
        later >= now + SLIDE_OUT_DURATION_MS,
    ensures
        tick_phase(PopupContent::Status, (PopupPhase::Holding { started_at }), now) == (
        PopupPhase::SlidingOut { started_at: now, from_y: TARGET_Y_OFFSET_BITS }),
        tick_phase(
            PopupContent::Status,
            tick_phase(PopupContent::Status, (PopupPhase::Holding { started_at }), now),
            later,
        ) == PopupPhase::Hidden,
{
}

/// While the cheat sheet is up, digit keys leave the popup as it is.
pub proof fn lemma_cheatsheet_suppresses_status(
    phase: PopupPhase,
    digit: u8,
    context: PopupContext,
)
    requires
        phase != PopupPhase::Hidden,
    ensures
        status_request(PopupContent::Cheatsheet, phase, PopupEvent::DigitPressed(digit), context)
            is None,
{
}

/// Dismissing the cheat sheet never touches a status popup.
pub proof fn lemma_hide_ignores_status(phase: PopupPhase, now: u64, current_y: u64)
    ensures
        hide_cheatsheet_phase(PopupContent::Status, phase, now, current_y) == phase,
{
}

/// Showing the cheat sheet twice is the same as showing it once.
pub proof fn lemma_show_cheatsheet_idempotent(
    content: PopupContent,
    phase: PopupPhase,
    now: u64,
    later: u64,
    y: u64,
    y2: u64,
)
    requires
        phase !is SlidingOut,
    ensures
        ({
            let (c1, p1) = show_cheatsheet_state(content, phase, now, y);
            show_cheatsheet_state(c1, p1, later, y2) == (c1, p1)
        }),
{
}

/// Without any event, a popup never comes back into view: time alone only
/// moves it towards hidden.
pub proof fn lemma_tick_never_reveals(content: PopupContent, now: u64)
    ensures
        tick_phase(content, PopupPhase::Hidden, now) == PopupPhase::Hidden,
{
}

/// Digits 1 and 2, pressed while the modifier is held and no cheat sheet is
/// up, report the pin and spotlight modes by name: "Pinned" exactly when
/// pinning is on and spotlight off, "Spotlight" exactly when spotlight is on
/// and pinning off, "Pinned · Spotlight" when both are on and "Transient"
/// when neither is.
pub proof fn lemma_digit_status_names_the_modes(
    content: PopupContent,
    phase: PopupPhase,
    digit: u8,
    context: PopupContext,
)
    requires
        digit == 1 || digit == 2,
        context.modifier_active,
        content == PopupContent::Status || phase == PopupPhase::Hidden,
    ensures
        status_request(content, phase, PopupEvent::DigitPressed(digit), context) == Some("Pinned"@)
            <==> (context.pinned_active && !context.spotlight_active),
        status_request(content, phase, PopupEvent::DigitPressed(digit), context) == Some(
            "Spotlight"@,
        ) <==> (!context.pinned_active && context.spotlight_active),
        (context.pinned_active && context.spotlight_active) ==> status_request(
            content,
            phase,
            PopupEvent::DigitPressed(digit),
            context,
        ) == Some("Pinned \u{00b7} Spotlight"@),
        (!context.pinned_active && !context.spotlight_active) ==> status_request(
            content,
            phase,
            PopupEvent::DigitPressed(digit),
            context,
        ) == Some("Transient"@),
{
    reveal_strlit("Pinned");
    reveal_strlit("Spotlight");
    reveal_strlit("Transient");
    reveal_strlit("Pinned \u{00b7} Spotlight");
    assert("Pinned"@.len() == 6);
    assert("Spotlight"@.len() == 9);
    assert("Transient"@.len() == 9);
    assert("Spotlight"@[0] != "Transient"@[0]);
}

/// Digit 3 announces the magnifier, and only when it is on, the modifier is
/// held and no cheat sheet is up; other digits, and events that are not
/// digits, ask for no status message; and nothing is announced while the
/// modifier is up.
pub proof fn lemma_status_messages_need_their_key(
    content: PopupContent,
    phase: PopupPhase,
    event: PopupEvent,
    context: PopupContext,
)
    ensures
        (content == PopupContent::Status || phase == PopupPhase::Hidden) ==> status_request(
            content,
            phase,
            PopupEvent::DigitPressed(3),
            context,
        ) == (if context.magnifier_active && context.modifier_active {
            Some("Magnifier"@)
        } else {
            None
        }),
        !context.modifier_active ==> status_request(content, phase, event, context) is None,
        !(event is DigitPressed) ==> status_request(content, phase, event, context) is None,
        (event matches PopupEvent::DigitPressed(d) && d != 1 && d != 2 && d != 3)
            ==> status_request(content, phase, event, context) is None,
{
}

/// Showing a status message always brings the popup into view: it is then
/// sliding in or held, never hidden or sliding out. A hidden popup slides in
/// from off screen, one sliding in goes on as it was, and one sliding out
/// turns back from where it is, all from the moment of the message.
pub proof fn lemma_status_message_comes_into_view(phase: PopupPhase, now: u64, current_y: u64)
    ensures
        show_status_phase(phase, now, current_y) is SlidingIn || show_status_phase(
            phase,
            now,
            current_y,
        ) is Holding,
        phase == PopupPhase::Hidden ==> show_status_phase(phase, now, current_y) == (
        PopupPhase::SlidingIn { started_at: now, from_y: START_Y_OFFSET_BITS }),
        phase is SlidingIn ==> show_status_phase(phase, now, current_y) == phase,
        phase is SlidingOut ==> show_status_phase(phase, now, current_y) == (PopupPhase::SlidingIn {
            started_at: now,
            from_y: current_y,
        }),
{
}

/// A status message shown while the popup is held is held anew from that
/// moment: it stays for the full hold time of 1000 ms after `now`, then
/// slides out from rest.
pub proof fn lemma_status_message_restarts_the_hold(
    started_at: u64,
    now: u64,
    current_y: u64,
    later: u64,
)
    ensures
        show_status_phase(PopupPhase::Holding { started_at }, now, current_y) == (
        PopupPhase::Holding { started_at: now }),
        later < now + 1000 ==> tick_phase(
            PopupContent::Status,
            show_status_phase(PopupPhase::Holding { started_at }, now, current_y),
            later,
        ) == (PopupPhase::Holding { started_at: now }),
        later >= now + 1000 ==> tick_phase(
            PopupContent::Status,
            show_status_phase(PopupPhase::Holding { started_at }, now, current_y),
            later,
        ) == (PopupPhase::SlidingOut { started_at: later, from_y: TARGET_Y_OFFSET_BITS }),
{
}

/// Sliding in takes 350 ms, whatever the popup shows: before that the
/// popup keeps sliding, from then on it is held from the moment of the tick.
pub proof fn lemma_slide_in_takes_its_time(
    content: PopupContent,
    started_at: u64,
    from_y: u64,
    now: u64,
)
    ensures
        now >= started_at + 350 ==> tick_phase(
            content,
            PopupPhase::SlidingIn { started_at, from_y },
            now,
        ) == (PopupPhase::Holding { started_at: now }),
        now < started_at + 350 ==> tick_phase(
            content,
            PopupPhase::SlidingIn { started_at, from_y },
            now,
        ) == (PopupPhase::SlidingIn { started_at, from_y }),
{
}

/// A held status popup stays for 1000 ms and then slides out from rest.
pub proof fn lemma_status_hold_lasts_its_time(started_at: u64, now: u64)
    ensures
        now < started_at + 1000 ==> tick_phase(
            PopupContent::Status,
            PopupPhase::Holding { started_at },
            now,
        ) == (PopupPhase::Holding { started_at }),
        now >= started_at + 1000 ==> tick_phase(
            PopupContent::Status,
            PopupPhase::Holding { started_at },
            now,
        ) == (PopupPhase::SlidingOut { started_at: now, from_y: TARGET_Y_OFFSET_BITS }),
{
}

/// Sliding out always ends, whatever the popup shows: it lasts 200 ms, and
/// from then on the popup is hidden.
pub proof fn lemma_slide_out_always_ends(
    content: PopupContent,
    started_at: u64,
    from_y: u64,
    now: u64,
)
    ensures
        now >= started_at + 200 ==> tick_phase(
            content,
            PopupPhase::SlidingOut { started_at, from_y },
            now,
        ) == PopupPhase::Hidden,
        now < started_at + 200 ==> tick_phase(
            content,
            PopupPhase::SlidingOut { started_at, from_y },
            now,
        ) == (PopupPhase::SlidingOut { started_at, from_y }),
{
}

/// Dismissing a visible cheat sheet, whether it is still sliding in or
/// held, starts its slide-out at once from where it is, and 200 ms later it
/// is gone.
pub proof fn lemma_dismissed_cheatsheet_goes_away(
    phase: PopupPhase,
    now: u64,
    current_y: u64,
    later: u64,
)
    requires
        phase != PopupPhase::Hidden,
        !(phase is SlidingOut),
    ensures
        hide_cheatsheet_phase(PopupContent::Cheatsheet, phase, now, current_y) == (
        PopupPhase::SlidingOut { started_at: now, from_y: current_y }),
        later >= now + 200 ==> tick_phase(
            PopupContent::Cheatsheet,
            hide_cheatsheet_phase(PopupContent::Cheatsheet, phase, now, current_y),
            later,
        ) == PopupPhase::Hidden,
{
}

/// Asking for the cheat sheet always puts it in view: afterwards the popup
/// shows the cheat sheet, sliding in or held. A hidden popup slides in from
/// off screen, a visible status popup is replaced at once and held, and one
/// sliding out turns back from where it is.
pub proof fn lemma_cheatsheet_comes_into_view(
    content: PopupContent,
    phase: PopupPhase,
    now: u64,
    current_y: u64,
)
    ensures
        show_cheatsheet_state(content, phase, now, current_y).0 == PopupContent::Cheatsheet,
        show_cheatsheet_state(content, phase, now, current_y).1 is SlidingIn
            || show_cheatsheet_state(content, phase, now, current_y).1 is Holding,
        phase == PopupPhase::Hidden ==> show_cheatsheet_state(content, phase, now, current_y).1 == (
        PopupPhase::SlidingIn { started_at: now, from_y: START_Y_OFFSET_BITS }),
        (content == PopupContent::Status && (phase is SlidingIn || phase is Holding))
            ==> show_cheatsheet_state(content, phase, now, current_y).1 == (PopupPhase::Holding {
            started_at: now,
        }),
        phase is SlidingOut ==> show_cheatsheet_state(content, phase, now, current_y).1 == (
        PopupPhase::SlidingIn { started_at: now, from_y: current_y }),
{
}

/// The cheat sheet pairs each key with what it does: key 1 pins (the mode
/// the status popup then calls "Pinned"), key 2 turns on the spotlight (the
/// mode it calls "Spotlight"), key 3 is the magnifier (announced as
/// "Magnifier"), and no other row claims those keys.
pub proof fn lemma_cheatsheet_keys_match_their_actions(name: Seq<char>, i: int)
    requires
        0 <= i < cheatsheet_rows_for(name).len(),
    ensures
        cheatsheet_rows_for(name).len() == 6,
        cheatsheet_rows_for(name)[1] == ("1"@, "Pin"@),
        cheatsheet_rows_for(name)[2] == ("2"@, "Spotlight"@),
        cheatsheet_rows_for(name)[3] == ("3"@, "Magnifier"@),
        cheatsheet_rows_for(name)[i].0 == "1"@ ==> i == 1,
        cheatsheet_rows_for(name)[i].0 == "2"@ ==> i == 2,
        cheatsheet_rows_for(name)[i].0 == "3"@ ==> i == 3,
        status_text_for(true, false) == cheatsheet_rows_for(name)[1].1 + "ned"@,
        status_text_for(false, true) == cheatsheet_rows_for(name)[2].1,
{
    reveal_strlit("1");
    reveal_strlit("2");
    reveal_strlit("3");
    reveal_strlit("Esc");
    reveal_strlit(" + drag");
    reveal_strlit(" + `");
    reveal_strlit("Pin");
    reveal_strlit("ned");
    reveal_strlit("Pinned");
    let rows = cheatsheet_rows_for(name);
    assert((name + " + drag"@).len() >= 7);
    assert((name + " + `"@).len() >= 4);
    assert("Esc"@.len() == 3);
    assert("1"@.len() == 1 && "2"@.len() == 1 && "3"@.len() == 1);
    assert("1"@[0] != "2"@[0] && "1"@[0] != "3"@[0] && "2"@[0] != "3"@[0]);
    assert("1"@ != "2"@ && "1"@ != "3"@ && "2"@ != "3"@);
    assert("Pin"@ + "ned"@ =~= "Pinned"@);
    if i == 0 {
        assert(rows[i].0.len() >= 7);
    } else if i == 5 {
        assert(rows[i].0.len() >= 4);
    } else if i == 4 {
        assert(rows[i].0 == "Esc"@);
    }
}

} // verus!
