use holdrect::autostart::{quote_path, registry_string_bytes, removal_succeeded};
use holdrect::cli::CommandError;
use holdrect::ipc::{
    after_open_attempt, after_pipe_wait, after_write, connect_succeeded, io_error, remaining_millis, serve_outcome,
    wide, LineReader, LineStep, OpenAction, OpenOutcome, MAX_WIRE_BYTES,
};

#[test]
fn wide_appends_terminator_and_encodes_utf16() {
    assert_eq!(wide("ab"), vec![0x61, 0x62, 0]);
    assert_eq!(wide(""), vec![0]);
    let text = r"\\.\pipe\HoldRect";
    let expected: Vec<u16> = text.encode_utf16().chain(std::iter::once(0)).collect();
    assert_eq!(wide(text), expected);
    let mixed = "é\u{1F600}x";
    let expected: Vec<u16> = mixed.encode_utf16().chain(std::iter::once(0)).collect();
    assert_eq!(wide(mixed), expected);
    assert_eq!(wide("\u{1F600}"), vec![0xD83D, 0xDE00, 0]);
}

#[test]
fn registry_bytes_are_little_endian_utf16() {
    assert_eq!(registry_string_bytes("A"), vec![0x41, 0, 0, 0]);
    assert_eq!(registry_string_bytes("\u{20AC}"), vec![0xAC, 0x20, 0, 0]);
    assert_eq!(quote_path(r"C:\Program Files\holdrect.exe"), "\"C:\\Program Files\\holdrect.exe\"");
    let quoted = quote_path("x y");
    assert!(quoted.starts_with('"') && quoted.ends_with('"'));
}

#[test]
fn remaining_millis_budget() {
    assert!(remaining_millis(0).unwrap_err().is_code("pipe_timeout"));
    assert_eq!(remaining_millis(1), Ok(1));
    assert_eq!(remaining_millis(999_999), Ok(1));
    assert_eq!(remaining_millis(2_500_000), Ok(2));
    assert_eq!(remaining_millis(5_000_000_000), Ok(5000));
    assert_eq!(remaining_millis(u128::MAX), Ok(u32::MAX));
    assert_eq!(io_error("pipe_read", "x").code, "pipe_read");
}

#[test]
fn line_reader_reassembles_split_message() {
    let mut reader = LineReader::new();
    assert_eq!(reader.next_read_len(), 64);
    assert_eq!(reader.push_chunk(b"cl"), LineStep::NeedMore);
    assert_eq!(reader.push_chunk(b"ear\n"), LineStep::Complete);
    assert_eq!(reader.into_frame(), b"clear\n".to_vec());
}

#[test]
fn line_reader_reports_closed_pipe() {
    let mut reader = LineReader::new();
    assert_eq!(reader.push_chunk(b"cl"), LineStep::NeedMore);
    match reader.push_chunk(b"") {
        LineStep::Failed(e) => {
            assert!(e.is_code("pipe_read"));
            assert_eq!(e.message, "named pipe closed before newline");
        }
        other => panic!("unexpected {other:?}"),
    }
}

#[test]
fn line_reader_rejects_oversized_message() {
    let mut reader = LineReader::new();
    let chunk = [b'x'; 64];
    let mut reads = 0;
    loop {
        let n = reader.next_read_len();
        reads += 1;
        match reader.push_chunk(&chunk[..n]) {
            LineStep::NeedMore => continue,
            LineStep::Failed(e) => {
                assert!(e.is_code("request_too_large"));
                break;
            }
            LineStep::Complete => panic!("no newline was sent"),
        }
    }
    assert_eq!(reads, MAX_WIRE_BYTES / 64);
}

#[test]
fn line_reader_last_read_is_shortened() {
    let mut reader = LineReader::new();
    let chunk = [b'x'; 500];
    assert_eq!(reader.push_chunk(&chunk), LineStep::NeedMore);
    assert_eq!(reader.next_read_len(), 12);
}

#[test]
fn client_open_decisions() {
    assert_eq!(after_open_attempt(false, OpenOutcome::Opened, 0), (false, OpenAction::Connected));
    match after_open_attempt(false, OpenOutcome::NotFound, 5_000_000_000) {
        (false, OpenAction::Fail(e)) => {
            assert!(e.is_code("pipe_not_found"));
            assert_eq!(e.message, "HoldRect command pipe is not ready");
        }
        other => panic!("unexpected {other:?}"),
    }
    assert_eq!(
        after_open_attempt(true, OpenOutcome::NotFound, 5_000_000),
        (true, OpenAction::SleepThenRetry)
    );
    assert_eq!(
        after_open_attempt(false, OpenOutcome::Busy, 2_000_000_000),
        (true, OpenAction::WaitForPipe(2000))
    );
    match after_open_attempt(false, OpenOutcome::Busy, 0) {
        (true, OpenAction::Fail(e)) => assert!(e.is_code("pipe_timeout")),
        other => panic!("unexpected {other:?}"),
    }
    match after_open_attempt(true, OpenOutcome::Failed("denied".to_string()), 10) {
        (true, OpenAction::Fail(e)) => {
            assert!(e.is_code("pipe_open"));
            assert_eq!(e.message, "denied");
        }
        other => panic!("unexpected {other:?}"),
    }
    assert_eq!(after_pipe_wait(true, false), None);
    assert_eq!(after_pipe_wait(false, true), None);
    assert!(after_pipe_wait(false, false).unwrap().is_code("pipe_timeout"));
}

#[test]
fn connect_counts_early_and_vanished_clients_as_connected() {
    assert!(connect_succeeded(None));
    assert!(connect_succeeded(Some(535)));
    assert!(connect_succeeded(Some(232)));
    assert!(!connect_succeeded(Some(5)));
}

#[test]
fn serve_outcome_prefers_read_error_when_reply_fails() {
    let read = CommandError::new("pipe_read", "client went away");
    let write = CommandError::new("pipe_write", "broken pipe");
    assert!(serve_outcome(Some(read.clone()), None).is_ok());
    assert!(serve_outcome(None, None).is_ok());
    assert!(serve_outcome(Some(read.clone()), Some(write.clone())).unwrap_err().is_code("pipe_read"));
    assert!(serve_outcome(None, Some(write)).unwrap_err().is_code("pipe_write"));
}

#[test]
fn write_progress_stops_on_zero_byte_write() {
    assert_eq!(after_write(10, 4).unwrap(), 6);
    assert_eq!(after_write(10, 10).unwrap(), 0);
    let err = after_write(10, 0).unwrap_err();
    assert!(err.is_code("pipe_write"));
    assert_eq!(err.to_display_string(), "pipe_write: named pipe wrote zero bytes");
}

#[test]
fn removing_a_missing_autostart_entry_is_no_error() {
    assert!(removal_succeeded(None));
    assert!(removal_succeeded(Some(2)));
    assert!(!removal_succeeded(Some(5)));
}

#[test]
fn absent_pipe_returns_distinct_error() {
    let (saw_busy, action) = after_open_attempt(false, OpenOutcome::NotFound, 50_000_000);
    assert!(!saw_busy);
    match action {
        OpenAction::Fail(error) => assert!(error.is_code("pipe_not_found")),
        other => panic!("expected a failure, got {other:?}"),
    }
}

#[test]
fn absent_pipe_returns_immediately_without_retry() {
    // Even with five seconds left, a pipe that was never seen busy is not
    // retried: the first missing pipe ends the attempt.
    let (_, action) = after_open_attempt(false, OpenOutcome::NotFound, 5_000_000_000);
    match action {
        OpenAction::Fail(error) => assert!(error.is_code("pipe_not_found")),
        other => panic!("absent pipe was retried: {other:?}"),
    }
}
