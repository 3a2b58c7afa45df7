use vstd::prelude::*;
use vstd::std_specs::cmp::PartialEqSpecImpl;

verus! {

/// Input events delivered by the global keyboard and mouse listener.
#[derive(Debug, Clone, Copy, PartialEq, Eq, Structural)]
pub enum InputEvent {
    ModifierChanged { pressed: bool },
    MouseButtonDown { x: i32, y: i32 },
    MouseButtonUp { x: i32, y: i32 },
    MouseMove { x: i32, y: i32 },
    DigitPressed(u8),
    EscapePressed,
}

/// Drawing states.
#[derive(Debug, Clone, Copy, Eq)]
pub enum DrawingState {
    /// Background idle, overlay hidden.
    Idle,
    /// Modifier held, waiting for a mouse press, overlay hidden.
    Armed,
    /// Mouse dragging, overlay visible, rendering the rectangle.
    Drawing { start: (i32, i32), current: (i32, i32) },
}

impl PartialEq for DrawingState {
    fn eq(&self, other: &Self) -> (same: bool) {
        match (self, other) {
            (DrawingState::Idle, DrawingState::Idle) => true,
            (DrawingState::Armed, DrawingState::Armed) => true,
            (
                DrawingState::Drawing { start: s1, current: c1 },
                DrawingState::Drawing { start: s2, current: c2 },
            ) => s1.0 == s2.0 && s1.1 == s2.1 && c1.0 == c2.0 && c1.1 == c2.1,
            _ => false,
        }
    }
}

impl PartialEqSpecImpl for DrawingState {
    open spec fn obeys_eq_spec() -> bool {
        true
    }

    open spec fn eq_spec(&self, other: &Self) -> bool {
        *self == *other
    }
}

/// Application state.
#[derive(Debug, Clone, Copy, Eq)]
pub struct AppState {
    pub drawing: DrawingState,
}

impl PartialEq for AppState {
    fn eq(&self, other: &Self) -> (same: bool) {
        self.drawing == other.drawing
    }
}

impl PartialEqSpecImpl for AppState {
    open spec fn obeys_eq_spec() -> bool {
        true
    }

    open spec fn eq_spec(&self, other: &Self) -> bool {
        *self == *other
    }
}

impl Default for AppState {
    fn default() -> (s: Self)
        ensures
            s.drawing == DrawingState::Idle,
    {
        AppState { drawing: DrawingState::Idle }
    }
}

/// The drawing state that follows `drawing` when `event` arrives.
///
/// Modifier press arms an idle state; a press of the mouse button starts a
/// drag at the pointer; moves update the drag's current corner; releasing the
/// button returns to armed; releasing the modifier always ends in idle.
/// Every other combination leaves the state as it is.
pub open spec fn next_drawing(drawing: DrawingState, event: InputEvent) -> DrawingState {
    match (drawing, event) {
        (DrawingState::Idle, InputEvent::ModifierChanged { pressed: true }) => DrawingState::Armed,
        (DrawingState::Armed, InputEvent::MouseButtonDown { x, y }) => DrawingState::Drawing {
            start: (x, y),
            current: (x, y),
        },
        (DrawingState::Drawing { start, .. }, InputEvent::MouseMove { x, y }) => {
            DrawingState::Drawing { start, current: (x, y) }
        },
        (DrawingState::Drawing { .. }, InputEvent::MouseButtonUp { .. }) => DrawingState::Armed,
        (DrawingState::Armed, InputEvent::ModifierChanged { pressed: false }) => DrawingState::Idle,
        (DrawingState::Drawing { .. }, InputEvent::ModifierChanged { pressed: false }) => {
            DrawingState::Idle
        },
        _ => drawing,
    }
}

/// The application state after one event.
pub open spec fn step(state: AppState, event: InputEvent) -> AppState {
    AppState { drawing: next_drawing(state.drawing, event) }
}

/// The application state after a whole sequence of events, applied in order.
pub open spec fn run(state: AppState, events: Seq<InputEvent>) -> AppState
    decreases events.len(),
{
    if events.len() == 0 {
        state
    } else {
        run(step(state, events[0]), events.drop_first())
    }
}

/// Pure state transition function. No side effects.
pub fn process_event(state: &AppState, event: &InputEvent) -> (next: AppState)
    ensures
        next == step(*state, *event),
{
    let drawing = match (state.drawing, *event) {
        (DrawingState::Idle, InputEvent::ModifierChanged { pressed: true }) => DrawingState::Armed,
        (DrawingState::Armed, InputEvent::MouseButtonDown { x, y }) => DrawingState::Drawing {
            start: (x, y),
            current: (x, y),
        },
        (DrawingState::Drawing { start, .. }, InputEvent::MouseMove { x, y }) => {
            DrawingState::Drawing { start, current: (x, y) }
        },
        (DrawingState::Drawing { .. }, InputEvent::MouseButtonUp { .. }) => DrawingState::Armed,
        (DrawingState::Armed, InputEvent::ModifierChanged { pressed: false }) => DrawingState::Idle,
        (DrawingState::Drawing { .. }, InputEvent::ModifierChanged { pressed: false }) => {
            DrawingState::Idle
        },
        _ => state.drawing,
    };
    AppState { drawing }
}

/// The smaller of two coordinates.
pub open spec fn min_i32(a: i32, b: i32) -> i32 {
    if a <= b { a } else { b }
}

/// The larger of two coordinates.
pub open spec fn max_i32(a: i32, b: i32) -> i32 {
    if a >= b { a } else { b }
}

/// Orders two corners of a drag into `(left, top, right, bottom)`.
pub fn normalize_rect(start: (i32, i32), current: (i32, i32)) -> (r: (i32, i32, i32, i32))
    ensures
        r.0 == min_i32(start.0, current.0),
        r.1 == min_i32(start.1, current.1),
        r.2 == max_i32(start.0, current.0),
        r.3 == max_i32(start.1, current.1),
{
    let x0 = if start.0 <= current.0 { start.0 } else { current.0 };
    let y0 = if start.1 <= current.1 { start.1 } else { current.1 };
    let x1 = if start.0 >= current.0 { start.0 } else { current.0 };
    let y1 = if start.1 >= current.1 { start.1 } else { current.1 };
    (x0, y0, x1, y1)
}

/// Releasing the modifier key always returns to idle, whatever was going on.
pub proof fn lemma_release_always_idles(state: AppState)
    ensures
        step(state, InputEvent::ModifierChanged { pressed: false }).drawing == DrawingState::Idle,
{
}

/// Digit and escape key events never change the drawing state.
pub proof fn lemma_keys_leave_state_unchanged(state: AppState, digit: u8)
    ensures
        step(state, InputEvent::DigitPressed(digit)) == state,
        step(state, InputEvent::EscapePressed) == state,
{
}

/// The only way out of idle is a press of the modifier, and it leads to armed.
pub proof fn lemma_idle_left_only_by_modifier_press(event: InputEvent)
    ensures
        next_drawing(DrawingState::Idle, event) != DrawingState::Idle ==> (event
            == InputEvent::ModifierChanged { pressed: true } && next_drawing(
            DrawingState::Idle,
            event,
        ) == DrawingState::Armed),
{
}

/// A drag begins only from armed, on a mouse press, with both corners at the
/// pointer.
pub proof fn lemma_drag_begins_at_press(drawing: DrawingState, event: InputEvent)
    ensures
        (drawing !is Drawing && next_drawing(drawing, event) is Drawing) ==> (drawing
            == DrawingState::Armed && event is MouseButtonDown && next_drawing(drawing, event)
            == (DrawingState::Drawing {
            start: (event->MouseButtonDown_x, event->MouseButtonDown_y),
            current: (event->MouseButtonDown_x, event->MouseButtonDown_y),
        })),
{
}

/// Releasing the mouse button ends a drag in armed: the modifier is still held,
/// so another rectangle can be drawn at once.
pub proof fn lemma_release_button_rearms(start: (i32, i32), current: (i32, i32), x: i32, y: i32)
    ensures
        next_drawing(
            DrawingState::Drawing { start, current },
            InputEvent::MouseButtonUp { x, y },
        ) == DrawingState::Armed,
{
}

/// Whether every event of a sequence is a mouse move.
pub open spec fn all_moves(events: Seq<InputEvent>) -> bool {
    forall|i: int| 0 <= i < events.len() ==> #[trigger] events[i] is MouseMove
}

/// Any run of mouse moves during a drag keeps the start corner, and the
/// current corner is where the last move went.
pub proof fn lemma_moves_preserve_start(
    start: (i32, i32),
    current: (i32, i32),
    events: Seq<InputEvent>,
)
    requires
        all_moves(events),
    ensures
        run(AppState { drawing: DrawingState::Drawing { start, current } }, events).drawing == (
        if events.len() == 0 {
            DrawingState::Drawing { start, current }
        } else {
            DrawingState::Drawing {
                start,
                current: (
                    events.last()->MouseMove_x,
                    events.last()->MouseMove_y,
                ),
            }
        }),
    decreases events.len(),
{
    if events.len() > 0 {
        let e = events[0];
        assert(e is MouseMove);
        let next_current = (e->MouseMove_x, e->MouseMove_y);
        let rest = events.drop_first();
        assert(all_moves(rest)) by {
            assert forall|i: int| 0 <= i < rest.len() implies #[trigger] rest[i] is MouseMove by {
                assert(rest[i] == events[i + 1]);
            }
        }
        lemma_moves_preserve_start(start, next_current, rest);
        if rest.len() > 0 {
            assert(rest.last() == events.last());
        }
    }
}

/// The drawn rectangle is ordered: its left edge is at most its right edge,
/// its top at most its bottom, and it spans exactly the two corners.
pub proof fn lemma_normalized_rect_is_ordered(start: (i32, i32), current: (i32, i32))
    ensures
        min_i32(start.0, current.0) <= max_i32(start.0, current.0),
        min_i32(start.1, current.1) <= max_i32(start.1, current.1),
        min_i32(start.0, current.0) == min_i32(current.0, start.0),
        max_i32(start.1, current.1) == max_i32(current.1, start.1),
{
}

} // verus!
