use vstd::prelude::*;

use crate::state::InputEvent;

verus! {

/// Low-level mouse hook message: the pointer moved.
pub const WM_MOUSEMOVE: u32 = 0x0200;

/// Low-level mouse hook message: the left button went down.
pub const WM_LBUTTONDOWN: u32 = 0x0201;

/// Low-level mouse hook message: the left button went up.
pub const WM_LBUTTONUP: u32 = 0x0202;

/// Whether `codes` holds `vk_code`.
fn contains_code(codes: &[u32], vk_code: u32) -> (found: bool)
    ensures
        found == codes@.contains(vk_code),
{
    let mut i: usize = 0;
    while i < codes.len()
        invariant
            i <= codes@.len(),
            forall|j: int| 0 <= j < i ==> codes@[j] != vk_code,
        decreases codes@.len() - i,
    {
        if codes[i] == vk_code {
            assert(codes@[i as int] == vk_code);
            return true;
        }
        i = i + 1;
    }
    false
}

/// What the keyboard hook reports for a key: a modifier change exactly when
/// the key is one of the configured modifier codes.
pub open spec fn keyboard_decision(
    vk_code: u32,
    is_key_down: bool,
    modifier_codes: Seq<u32>,
) -> Option<InputEvent> {
    if modifier_codes.contains(vk_code) {
        Some(InputEvent::ModifierChanged { pressed: is_key_down })
    } else {
        None
    }
}

/// Pure decision function for keyboard events.
pub fn decide_keyboard(vk_code: u32, is_key_down: bool, modifier_codes: &[u32]) -> (event: Option<
    InputEvent,
>)
    ensures
        event == keyboard_decision(vk_code, is_key_down, modifier_codes@),
{
    if !contains_code(modifier_codes, vk_code) {
        return None;
    }
    Some(InputEvent::ModifierChanged { pressed: is_key_down })
}

/// What the mouse hook reports for a message, and whether it swallows it.
///
/// During a drag, a left-button release is reported and swallowed, a move is
/// reported and passed on, and everything else is passed on silently. Outside
/// a drag, only a left-button press while suppression is on and the modifier
/// is held is reported and swallowed.
pub open spec fn mouse_decision(
    msg: u32,
    pt: (i32, i32),
    should_suppress: bool,
    drag_in_progress: bool,
    modifier_held: bool,
) -> (Option<InputEvent>, bool) {
    if drag_in_progress {
        if msg == WM_LBUTTONUP {
            (Some(InputEvent::MouseButtonUp { x: pt.0, y: pt.1 }), true)
        } else if msg == WM_MOUSEMOVE {
            (Some(InputEvent::MouseMove { x: pt.0, y: pt.1 }), false)
        } else {
            (None, false)
        }
    } else if should_suppress && modifier_held && msg == WM_LBUTTONDOWN {
        (Some(InputEvent::MouseButtonDown { x: pt.0, y: pt.1 }), true)
    } else {
        (None, false)
    }
}

/// Pure decision function for mouse events.
/// Returns the event to report and whether to swallow this message.
///
/// Suppression policy: only button events (left press, left release) are
/// swallowed. Mouse moves pass through so the cursor stays responsive.
pub fn decide_mouse(
    msg: u32,
    pt: (i32, i32),
    should_suppress: bool,
    drag_in_progress: bool,
    modifier_held: bool,
) -> (decision: (Option<InputEvent>, bool))
    ensures
        decision == mouse_decision(msg, pt, should_suppress, drag_in_progress, modifier_held),
{
    if drag_in_progress {
        if msg == WM_LBUTTONUP {
            return (Some(InputEvent::MouseButtonUp { x: pt.0, y: pt.1 }), true);
        }
        if msg == WM_MOUSEMOVE {
            return (Some(InputEvent::MouseMove { x: pt.0, y: pt.1 }), false);
        }
        return (None, false);
    }
    if !should_suppress || !modifier_held {
        return (None, false);
    }
    if msg == WM_LBUTTONDOWN {
        return (Some(InputEvent::MouseButtonDown { x: pt.0, y: pt.1 }), true);
    }
    (None, false)
}

/// The state shared by the keyboard and mouse hooks: whether the modifier is
/// held (the keyboard hook's record, which the mouse hook trusts) and whether
/// a swallowed left press has not yet been matched by its release.
#[derive(Debug, Clone, Copy, PartialEq, Eq, Structural)]
pub struct HookState {
    pub should_suppress: bool,
    pub drag_in_progress: bool,
}

/// The hook state after the keyboard hook saw a key.
pub open spec fn keyboard_step(
    state: HookState,
    vk_code: u32,
    is_key_down: bool,
    modifier_codes: Seq<u32>,
) -> HookState {
    if modifier_codes.contains(vk_code) {
        HookState { should_suppress: is_key_down, ..state }
    } else {
        state
    }
}

/// The hook state after the mouse hook saw a message: a swallowed left press
/// starts a drag and a swallowed left release ends it.
pub open spec fn mouse_step(state: HookState, msg: u32, pt: (i32, i32)) -> HookState {
    let swallowed = mouse_decision(
        msg,
        pt,
        state.should_suppress,
        state.drag_in_progress,
        state.should_suppress,
    ).1;
    if swallowed && msg == WM_LBUTTONDOWN {
        HookState { drag_in_progress: true, ..state }
    } else if swallowed && msg == WM_LBUTTONUP {
        HookState { drag_in_progress: false, ..state }
    } else {
        state
    }
}

impl HookState {
    /// Nothing held, nothing dragged.
    pub fn new() -> (s: Self)
        ensures
            !s.should_suppress,
            !s.drag_in_progress,
    {
        HookState { should_suppress: false, drag_in_progress: false }
    }

    /// The keyboard hook's decision: report modifier changes and remember
    /// whether the modifier is held.
    pub fn on_keyboard(&mut self, vk_code: u32, is_key_down: bool, modifier_codes: &[u32]) -> (event:
        Option<InputEvent>)
        ensures
            event == keyboard_decision(vk_code, is_key_down, modifier_codes@),
            *final(self) == keyboard_step(*old(self), vk_code, is_key_down, modifier_codes@),
    {
        let event = decide_keyboard(vk_code, is_key_down, modifier_codes);
        if event.is_some() {
            self.should_suppress = is_key_down;
        }
        event
    }

    /// The mouse hook's decision: the event to report and whether to swallow
    /// the message; the drag flag follows the swallowed presses and releases.
    /// The keyboard hook's record is the single source of truth for whether
    /// the modifier is held.
    pub fn on_mouse(&mut self, msg: u32, pt: (i32, i32)) -> (decision: (Option<InputEvent>, bool))
        ensures
            decision == mouse_decision(
                msg,
                pt,
                old(self).should_suppress,
                old(self).drag_in_progress,
                old(self).should_suppress,
            ),
            *final(self) == mouse_step(*old(self), msg, pt),
    {
        let suppress = self.should_suppress;
        let modifier_held = suppress;
        let drag = self.drag_in_progress;
        let decision = decide_mouse(msg, pt, suppress, drag, modifier_held);
        if decision.1 {
            if msg == WM_LBUTTONDOWN {
                self.drag_in_progress = true;
            } else if msg == WM_LBUTTONUP {
                self.drag_in_progress = false;
            }
        }
        decision
    }
}

/// Mouse moves are never swallowed, so the cursor always stays responsive.
pub proof fn lemma_moves_never_swallowed(
    pt: (i32, i32),
    should_suppress: bool,
    drag_in_progress: bool,
    modifier_held: bool,
)
    ensures
        !mouse_decision(WM_MOUSEMOVE, pt, should_suppress, drag_in_progress, modifier_held).1,
{
}

/// Only left-button presses and releases are ever swallowed.
pub proof fn lemma_only_left_button_swallowed(
    msg: u32,
    pt: (i32, i32),
    should_suppress: bool,
    drag_in_progress: bool,
    modifier_held: bool,
)
    ensures
        mouse_decision(msg, pt, should_suppress, drag_in_progress, modifier_held).1 ==> (msg
            == WM_LBUTTONDOWN || msg == WM_LBUTTONUP),
{
}

/// A release of the left button during a drag is always reported and
/// swallowed and ends the drag, even when the modifier was let go first.
pub proof fn lemma_release_during_drag_ends_it(state: HookState, pt: (i32, i32))
    requires
        state.drag_in_progress,
    ensures
        mouse_decision(
            WM_LBUTTONUP,
            pt,
            state.should_suppress,
            true,
            state.should_suppress,
        ) == (Some(InputEvent::MouseButtonUp { x: pt.0, y: pt.1 }), true),
        !mouse_step(state, WM_LBUTTONUP, pt).drag_in_progress,
{
}

/// A drag starts only on a left press while the modifier is held, and that
/// press is reported and swallowed.
pub proof fn lemma_drag_starts_only_with_modifier(state: HookState, msg: u32, pt: (i32, i32))
    ensures
        (!state.drag_in_progress && mouse_step(state, msg, pt).drag_in_progress) ==> (msg
            == WM_LBUTTONDOWN && state.should_suppress && mouse_decision(
            msg,
            pt,
            state.should_suppress,
            false,
            state.should_suppress,
        ) == (Some(InputEvent::MouseButtonDown { x: pt.0, y: pt.1 }), true)),
{
}

/// While a drag is in progress, a further left press is neither reported nor
/// swallowed: swallowed presses and releases alternate.
pub proof fn lemma_no_second_press_during_drag(state: HookState, pt: (i32, i32))
    requires
        state.drag_in_progress,
    ensures
        mouse_decision(
            WM_LBUTTONDOWN,
            pt,
            state.should_suppress,
            true,
            state.should_suppress,
        ) == (None::<InputEvent>, false),
        mouse_step(state, WM_LBUTTONDOWN, pt) == state,
{
}

/// The mouse hook never touches the modifier record, and the keyboard hook
/// never touches the drag flag.
pub proof fn lemma_hooks_own_their_flags(
    state: HookState,
    msg: u32,
    pt: (i32, i32),
    vk_code: u32,
    is_key_down: bool,
    modifier_codes: Seq<u32>,
)
    ensures
        mouse_step(state, msg, pt).should_suppress == state.should_suppress,
        keyboard_step(state, vk_code, is_key_down, modifier_codes).drag_in_progress
            == state.drag_in_progress,
{
}

} // verus!
