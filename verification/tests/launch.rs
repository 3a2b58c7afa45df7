use holdrect::cli::CommandError;
use holdrect::launch::{
    instance_check, next_delivery_step, resident_start, DeliveryAction, DeliveryEvent, DeliveryPhase, InstanceCheck,
    ResidentStart,
};
use std::cell::Cell;
use std::collections::VecDeque;
use std::time::{Duration, Instant};

/// Runs the delivery decisions against a sender, a spawner and a deadline,
/// as the program's client mode does.
fn deliver(
    deadline: Instant,
    mut send: impl FnMut() -> Result<(), CommandError>,
    spawn: impl FnOnce() -> Result<(), CommandError>,
) -> Result<(), CommandError> {
    let mut spawn = Some(spawn);
    let mut phase = DeliveryPhase::FirstSend;
    let mut action = DeliveryAction::Send;
    loop {
        let event = match action {
            DeliveryAction::Send => DeliveryEvent::Sent(send()),
            DeliveryAction::Spawn => DeliveryEvent::Spawned((spawn.take().expect("spawned twice"))()),
            DeliveryAction::CheckDeadline | DeliveryAction::SleepThenCheckDeadline => {
                DeliveryEvent::DeadlineChecked { passed: Instant::now() >= deadline }
            }
            DeliveryAction::Finish(result) => return result,
        };
        let (next_phase, next_action) = next_delivery_step(phase, event);
        phase = next_phase;
        action = next_action;
    }
}

#[test]
fn ready_daemon_does_not_spawn() {
    let spawned = Cell::new(0);
    let result = deliver(
        Instant::now() + Duration::from_secs(1),
        || Ok(()),
        || {
            spawned.set(spawned.get() + 1);
            Ok(())
        },
    );
    assert_eq!(result, Ok(()));
    assert_eq!(spawned.get(), 0);
}

#[test]
fn missing_daemon_spawns_once_then_retries() {
    let spawned = Cell::new(0);
    let mut results = VecDeque::from([
        Err(CommandError::new("pipe_not_found", "missing")),
        Err(CommandError::new("pipe_not_found", "starting")),
        Ok(()),
    ]);
    let result = deliver(
        Instant::now() + Duration::from_secs(1),
        || results.pop_front().unwrap(),
        || {
            spawned.set(spawned.get() + 1);
            Ok(())
        },
    );
    assert_eq!(result, Ok(()));
    assert_eq!(spawned.get(), 1);
}

#[test]
fn non_missing_error_does_not_spawn() {
    let spawned = Cell::new(0);
    let error = deliver(
        Instant::now() + Duration::from_secs(1),
        || Err(CommandError::new("pipe_open", "denied")),
        || {
            spawned.set(spawned.get() + 1);
            Ok(())
        },
    )
    .unwrap_err();
    assert!(error.is_code("pipe_open"));
    assert_eq!(spawned.get(), 0);
}

#[test]
fn missing_daemon_respects_deadline() {
    let error = deliver(
        Instant::now(),
        || Err(CommandError::new("pipe_not_found", "missing")),
        || Ok(()),
    )
    .unwrap_err();
    assert!(error.is_code("pipe_timeout"));
}

#[test]
fn failed_spawn_is_reported() {
    let error = deliver(
        Instant::now() + Duration::from_secs(1),
        || Err(CommandError::new("pipe_not_found", "missing")),
        || Err(CommandError::new("spawn_failed", "no such file")),
    )
    .unwrap_err();
    assert_eq!(error, CommandError::new("spawn_failed", "no such file"));
}

#[test]
fn retry_error_other_than_missing_ends_delivery() {
    let mut results = VecDeque::from([
        Err(CommandError::new("pipe_not_found", "missing")),
        Err(CommandError::new("outside_desktop", "invalid point")),
    ]);
    let error = deliver(
        Instant::now() + Duration::from_secs(5),
        || results.pop_front().unwrap(),
        || Ok(()),
    )
    .unwrap_err();
    assert!(error.is_code("outside_desktop"));
}

#[test]
fn delivery_step_answers() {
    let (phase, action) =
        next_delivery_step(DeliveryPhase::CheckingDeadline, DeliveryEvent::DeadlineChecked { passed: true });
    assert_eq!(phase, DeliveryPhase::CheckingDeadline);
    assert_eq!(
        action,
        DeliveryAction::Finish(Err(CommandError::new("pipe_timeout", "timed out waiting for HoldRect to start")))
    );
    let (phase, action) = next_delivery_step(
        DeliveryPhase::Resending,
        DeliveryEvent::Sent(Err(CommandError::new("pipe_not_found", "x"))),
    );
    assert_eq!(phase, DeliveryPhase::CheckingDeadline);
    assert_eq!(action, DeliveryAction::SleepThenCheckDeadline);
}

#[test]
fn second_instance_exits_and_notifies_only_on_user_launch() {
    assert_eq!(instance_check(183), InstanceCheck::AlreadyRunning);
    assert_eq!(instance_check(0), InstanceCheck::First);
    assert_eq!(resident_start(InstanceCheck::AlreadyRunning, true), ResidentStart::Exit { notify_existing: true });
    assert_eq!(resident_start(InstanceCheck::AlreadyRunning, false), ResidentStart::Exit { notify_existing: false });
    assert_eq!(resident_start(InstanceCheck::First, true), ResidentStart::Run);
    assert_eq!(resident_start(InstanceCheck::Failed, false), ResidentStart::Run);
}
