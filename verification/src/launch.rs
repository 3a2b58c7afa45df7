//! Delivering a command to the resident instance, starting it first when it
//! is not running: the decisions of the delivery loop, from one outcome to
//! the next action.
use vstd::prelude::*;

use crate::cli::CommandError;

verus! {

/// Where the delivery stands.
#[derive(Debug, Clone, Copy, PartialEq, Eq, Structural)]
pub enum DeliveryPhase {
    /// The first attempt to send is under way.
    FirstSend,
    /// The resident instance is being started.
    Spawning,
    /// Waiting to learn whether the deadline has passed.
    CheckingDeadline,
    /// A later attempt to send is under way.
    Resending,
}

/// What the caller does next.
#[derive(Debug, PartialEq)]
pub enum DeliveryAction {
    /// Send the command.
    Send,
    /// Start the resident instance.
    Spawn,
    /// Look at the clock and report whether the deadline has passed.
    CheckDeadline,
    /// Wait for the retry delay, then look at the clock.
    SleepThenCheckDeadline,
    /// Stop with this result.
    Finish(Result<(), CommandError>),
}

/// What the caller observed.
#[derive(Debug, PartialEq)]
pub enum DeliveryEvent {
    Sent(Result<(), CommandError>),
    Spawned(Result<(), CommandError>),
    DeadlineChecked { passed: bool },
}

/// Whether an event answers the action that a phase asked for.
pub open spec fn event_fits(phase: DeliveryPhase, event: DeliveryEvent) -> bool {
    match phase {
        DeliveryPhase::FirstSend => event is Sent,
        DeliveryPhase::Spawning => event is Spawned,
        DeliveryPhase::CheckingDeadline => event is DeadlineChecked,
        DeliveryPhase::Resending => event is Sent,
    }
}

/// Whether a send failed only because the pipe does not exist yet.
pub open spec fn is_missing_pipe(r: Result<(), CommandError>) -> bool {
    r matches Err(e) && e.code@ == "pipe_not_found"@
}

/// The error when the resident instance did not come up in time.
pub open spec fn startup_timeout_error() -> (Seq<char>, Seq<char>) {
    ("pipe_timeout"@, "timed out waiting for HoldRect to start"@)
}

/// The value of an action: a finishing result is taken by its error's texts.
pub enum DeliveryActionView {
    Send,
    Spawn,
    CheckDeadline,
    SleepThenCheckDeadline,
    Finish(Result<(), (Seq<char>, Seq<char>)>),
}

/// The value of a result that carries nothing but may fail.
pub open spec fn outcome_view(r: Result<(), CommandError>) -> Result<(), (Seq<char>, Seq<char>)> {
    match r {
        Ok(()) => Ok(()),
        Err(e) => Err(e@),
    }
}

impl View for DeliveryAction {
    type V = DeliveryActionView;

    open spec fn view(&self) -> DeliveryActionView {
        match self {
            DeliveryAction::Send => DeliveryActionView::Send,
            DeliveryAction::Spawn => DeliveryActionView::Spawn,
            DeliveryAction::CheckDeadline => DeliveryActionView::CheckDeadline,
            DeliveryAction::SleepThenCheckDeadline => DeliveryActionView::SleepThenCheckDeadline,
            DeliveryAction::Finish(r) => DeliveryActionView::Finish(outcome_view(*r)),
        }
    }
}

/// The next phase and action, given the current phase and what was observed.
///
/// A first send that works or fails for any other reason than a missing
/// pipe ends the delivery; a missing pipe starts the resident instance once.
/// After it started, each round first checks the deadline and then sends
/// again; a missing pipe waits and goes round again, anything else ends it.
pub open spec fn delivery_step(phase: DeliveryPhase, event: DeliveryEvent) -> (
    DeliveryPhase,
    DeliveryActionView,
)
    recommends
        event_fits(phase, event),
{
    match (phase, event) {
        (DeliveryPhase::FirstSend, DeliveryEvent::Sent(r)) => if is_missing_pipe(r) {
            (DeliveryPhase::Spawning, DeliveryActionView::Spawn)
        } else {
            (phase, DeliveryActionView::Finish(outcome_view(r)))
        },
        (DeliveryPhase::Spawning, DeliveryEvent::Spawned(r)) => if r is Ok {
            (DeliveryPhase::CheckingDeadline, DeliveryActionView::CheckDeadline)
        } else {
            (phase, DeliveryActionView::Finish(outcome_view(r)))
        },
        (DeliveryPhase::CheckingDeadline, DeliveryEvent::DeadlineChecked { passed }) => if passed {
            (phase, DeliveryActionView::Finish(Err(startup_timeout_error())))
        } else {
            (DeliveryPhase::Resending, DeliveryActionView::Send)
        },
        (DeliveryPhase::Resending, DeliveryEvent::Sent(r)) => if is_missing_pipe(r) {
            (DeliveryPhase::CheckingDeadline, DeliveryActionView::SleepThenCheckDeadline)
        } else {
            (phase, DeliveryActionView::Finish(outcome_view(r)))
        },
        _ => (phase, DeliveryActionView::Send),
    }
}

/// The decision of the delivery loop: from the current phase and what was
/// observed to the next phase and action. The loop starts in `FirstSend`
/// by sending.
pub fn next_delivery_step(phase: DeliveryPhase, event: DeliveryEvent) -> (next: (
    DeliveryPhase,
    DeliveryAction,
))
    requires
        event_fits(phase, event),
    ensures
        (next.0, next.1@) == delivery_step(phase, event),
{
    match (phase, event) {
        (DeliveryPhase::FirstSend, DeliveryEvent::Sent(r)) | (
            DeliveryPhase::Resending,
            DeliveryEvent::Sent(r),
        ) => {
            let missing = match &r {
                Err(e) => e.is_code("pipe_not_found"),
                Ok(()) => false,
            };
            if missing {
                match phase {
                    DeliveryPhase::FirstSend => (DeliveryPhase::Spawning, DeliveryAction::Spawn),
                    _ => (DeliveryPhase::CheckingDeadline, DeliveryAction::SleepThenCheckDeadline),
                }
            } else {
                (phase, DeliveryAction::Finish(r))
            }
        },
        (DeliveryPhase::Spawning, DeliveryEvent::Spawned(r)) => {
            if r.is_ok() {
                (DeliveryPhase::CheckingDeadline, DeliveryAction::CheckDeadline)
            } else {
                (phase, DeliveryAction::Finish(r))
            }
        },
        (DeliveryPhase::CheckingDeadline, DeliveryEvent::DeadlineChecked { passed }) => {
            if passed {
                (
                    phase,
                    DeliveryAction::Finish(
                        Err(
                            CommandError::new(
                                "pipe_timeout",
                                "timed out waiting for HoldRect to start",
                            ),
                        ),
                    ),
                )
            } else {
                (DeliveryPhase::Resending, DeliveryAction::Send)
            }
        },
        _ => (phase, DeliveryAction::Send),
    }
}

/// The resident instance is started at most once: only the answer to the
/// very first send can lead to starting it.
pub proof fn lemma_spawns_at_most_once(phase: DeliveryPhase, event: DeliveryEvent)
    requires
        phase != DeliveryPhase::FirstSend,
    ensures
        !(delivery_step(phase, event).1 is Spawn),
        delivery_step(phase, event).0 != DeliveryPhase::FirstSend,
{
}

/// Delivery only succeeds on a send that succeeded, and a send that fails
/// for any reason other than a missing pipe ends the delivery with that
/// very error.
pub proof fn lemma_finishes_with_send_outcome(phase: DeliveryPhase, event: DeliveryEvent)
    requires
        event_fits(phase, event),
    ensures
        delivery_step(phase, event).1 == DeliveryActionView::Finish(Ok(())) ==> (event matches DeliveryEvent::Sent(r) && r is Ok),
        (event matches DeliveryEvent::Sent(r) && r is Err && !is_missing_pipe(r)) ==> delivery_step(
            phase,
            event,
        ).1 == DeliveryActionView::Finish(outcome_view(event->Sent_0)),
{
}

/// Once the deadline has passed, the delivery ends with the start-up time-out.
pub proof fn lemma_deadline_ends_delivery()
    ensures
        delivery_step(
            DeliveryPhase::CheckingDeadline,
            DeliveryEvent::DeadlineChecked { passed: true },
        ).1 == DeliveryActionView::Finish(Err(startup_timeout_error())),
{
}

/// The system's code for a named object that already existed.
pub const ERROR_ALREADY_EXISTS: u32 = 183;

/// What the single-instance check found.
#[derive(Debug, Clone, Copy, PartialEq, Eq, Structural)]
pub enum InstanceCheck {
    /// This is the first instance; it holds the instance lock.
    First,
    /// Another instance already holds the lock.
    AlreadyRunning,
    /// The lock could not be created at all.
    Failed,
}

/// What creating the instance lock found, from the system's last error
/// after the lock was created: it existed already when that error says so.
pub fn instance_check(last_error: u32) -> (check: InstanceCheck)
    ensures
        check == if last_error == ERROR_ALREADY_EXISTS {
            InstanceCheck::AlreadyRunning
        } else {
            InstanceCheck::First
        },
{
    if last_error == ERROR_ALREADY_EXISTS {
        InstanceCheck::AlreadyRunning
    } else {
        InstanceCheck::First
    }
}

/// How a resident start goes on after the single-instance check.
#[derive(Debug, Clone, Copy, PartialEq, Eq, Structural)]
pub enum ResidentStart {
    /// Go on and run as the resident instance.
    Run,
    /// Stop at once, first telling the running instance that someone tried
    /// to start another when `notify_existing` is set.
    Exit { notify_existing: bool },
}

/// The resident start's decision: a second instance stops, and tells the
/// running one only when it was launched by the user; a failed check is no
/// reason to stop.
pub fn resident_start(check: InstanceCheck, first_launch: bool) -> (start: ResidentStart)
    ensures
        start == match check {
            InstanceCheck::AlreadyRunning => ResidentStart::Exit { notify_existing: first_launch },
            _ => ResidentStart::Run,
        },
{
    match check {
        InstanceCheck::AlreadyRunning => ResidentStart::Exit { notify_existing: first_launch },
        _ => ResidentStart::Run,
    }
}

} // verus!
