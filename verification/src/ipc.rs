//! Decisions of the named-pipe transport: the wide names handed to the
//! system, the wait budget before a deadline, and the framing of one
//! newline-terminated message read in bounded chunks.
use vstd::prelude::*;

use crate::cli::CommandError;

verus! {

/// The largest message, in bytes, that either end accepts.
pub const MAX_WIRE_BYTES: usize = 512;

/// The size of one read from the pipe.
pub const READ_CHUNK_BYTES: usize = 64;

/// The UTF-16 code units of one character: one unit below U+10000,
/// otherwise a high and a low surrogate.
pub open spec fn utf16_units(c: char) -> Seq<u16> {
    let v = c as int;
    if v < 0x10000 {
        seq![v as u16]
    } else {
        seq![(0xD800 + (v - 0x10000) / 0x400) as u16, (0xDC00 + (v - 0x10000) % 0x400) as u16]
    }
}

/// The UTF-16 encoding of a text.
pub open spec fn utf16_encode(s: Seq<char>) -> Seq<u16>
    decreases s.len(),
{
    if s.len() == 0 {
        Seq::empty()
    } else {
        utf16_encode(s.drop_last()) + utf16_units(s.last())
    }
}

/// The UTF-16 code units of a text followed by a terminating zero, as the
/// system's wide-string functions take it.
pub fn wide(value: &str) -> (units: Vec<u16>)
    ensures
        units@ == utf16_encode(value@).push(0u16),
{
    let n = value.unicode_len();
    let mut units: Vec<u16> = Vec::new();
    let mut i: usize = 0;
    while i < n
        invariant
            n == value@.len(),
            i <= n,
            units@ == utf16_encode(value@.take(i as int)),
        decreases n - i,
    {
        let c = value.get_char(i);
        let v = c as u32;
        if v < 0x10000 {
            units.push(v as u16);
        } else {
            let rest = v - 0x10000;
            assert(rest < 0x100000);
            units.push((0xD800 + rest / 0x400) as u16);
            units.push((0xDC00 + rest % 0x400) as u16);
        }
        assert(value@.take(i + 1).drop_last() =~= value@.take(i as int));
        assert(value@.take(i + 1).last() == c);
        i = i + 1;
    }
    assert(value@.take(n as int) =~= value@);
    units.push(0);
    units
}

/// An error of the pipe transport.
pub fn io_error(code: &str, message: &str) -> (e: CommandError)
    ensures
        e@ == (code@, message@),
{
    CommandError::new(code, message)
}

/// The wait budget, in whole milliseconds, that is left before a deadline
/// when `remaining_nanos` nanoseconds are left: an error once nothing is
/// left, otherwise at least one millisecond and at most what a 32-bit wait
/// can take.
pub open spec fn millis_budget(remaining_nanos: int) -> Result<u32, (Seq<char>, Seq<char>)> {
    if remaining_nanos == 0 {
        Err(("pipe_timeout"@, "timed out waiting for HoldRect"@))
    } else {
        let ms = remaining_nanos / 1_000_000;
        Ok(
            if ms < 1 {
                1u32
            } else if ms > u32::MAX {
                u32::MAX
            } else {
                ms as u32
            },
        )
    }
}

/// The milliseconds that a wait may take when `remaining_nanos` nanoseconds
/// are left before the deadline (the time left, already floored at zero).
pub fn remaining_millis(remaining_nanos: u128) -> (r: Result<u32, CommandError>)
    ensures
        match r {
            Ok(ms) => millis_budget(remaining_nanos as int) == Ok::<u32, (Seq<char>, Seq<char>)>(
                ms,
            ),
            Err(e) => millis_budget(remaining_nanos as int) == Err::<u32, (Seq<char>, Seq<char>)>(
                e@,
            ),
        },
{
    if remaining_nanos == 0 {
        return Err(io_error("pipe_timeout", "timed out waiting for HoldRect"));
    }
    let ms = remaining_nanos / 1_000_000;
    let clamped: u32 = if ms < 1 {
        1
    } else if ms > 0xFFFF_FFFF {
        0xFFFF_FFFF
    } else {
        ms as u32
    };
    Ok(clamped)
}

/// Whether a byte sequence holds a newline.
pub open spec fn has_newline(bytes: Seq<u8>) -> bool {
    bytes.contains(10u8)
}

/// The outcome of one chunk of a message being read.
#[derive(Debug, Clone, PartialEq)]
pub enum LineStep {
    /// No newline yet and room for more: read again.
    NeedMore,
    /// The message holds its newline.
    Complete,
    /// The read failed.
    Failed(CommandError),
}

/// One message being read from the pipe: the bytes read so far, which hold
/// no newline yet and are fewer than the largest message.
pub struct LineReader {
    frame: Vec<u8>,
}

impl LineReader {
    /// The bytes read so far.
    pub closed spec fn bytes(&self) -> Seq<u8> {
        self.frame@
    }

    /// Whether the message is still being read.
    pub open spec fn in_progress(&self) -> bool {
        self.bytes().len() < MAX_WIRE_BYTES && !has_newline(self.bytes())
    }

    /// Nothing read yet.
    pub fn new() -> (r: Self)
        ensures
            r.bytes() == Seq::<u8>::empty(),
            r.in_progress(),
    {
        LineReader { frame: Vec::new() }
    }

    /// How many bytes the next read may bring: what is left of the largest
    /// message, at most one chunk.
    pub fn next_read_len(&self) -> (n: usize)
        requires
            self.in_progress(),
        ensures
            n == if MAX_WIRE_BYTES - self.bytes().len() < READ_CHUNK_BYTES {
                (MAX_WIRE_BYTES - self.bytes().len()) as usize
            } else {
                READ_CHUNK_BYTES
            },
            0 < n <= READ_CHUNK_BYTES,
    {
        let remaining = MAX_WIRE_BYTES - self.frame.len();
        if remaining < READ_CHUNK_BYTES {
            remaining
        } else {
            READ_CHUNK_BYTES
        }
    }

    /// Takes the bytes of one read. An empty read means the writer closed
    /// the pipe before the newline. After the bytes are added the message is
    /// complete once it holds a newline, and too large once it reaches the
    /// largest size without one.
    pub fn push_chunk(&mut self, chunk: &[u8]) -> (step: LineStep)
        requires
            old(self).in_progress(),
            chunk@.len() <= MAX_WIRE_BYTES - old(self).bytes().len(),
        ensures
            chunk@.len() == 0 ==> (final(self).bytes() == old(self).bytes() && (step matches LineStep::Failed(
                e,
            ) && e@ == ("pipe_read"@, "named pipe closed before newline"@))),
            chunk@.len() > 0 ==> final(self).bytes() == old(self).bytes() + chunk@,
            chunk@.len() > 0 && has_newline(chunk@) ==> step == LineStep::Complete,
            chunk@.len() > 0 && !has_newline(chunk@) && final(self).bytes().len() < MAX_WIRE_BYTES
                ==> step == LineStep::NeedMore && final(self).in_progress(),
            chunk@.len() > 0 && !has_newline(chunk@) && final(self).bytes().len()
                == MAX_WIRE_BYTES ==> (step matches LineStep::Failed(e) && e@ == (
                "request_too_large"@,
                "wire frame exceeds 512 bytes"@,
            )),
            final(self).bytes().len() <= MAX_WIRE_BYTES,
    {
        if chunk.len() == 0 {
            return LineStep::Failed(io_error("pipe_read", "named pipe closed before newline"));
        }
        let ghost before = self.frame@;
        let mut found = false;
        let mut i: usize = 0;
        while i < chunk.len()
            invariant
                i <= chunk@.len(),
                self.frame@ == before + chunk@.take(i as int),
                found == chunk@.take(i as int).contains(10u8),
            decreases chunk@.len() - i,
        {
            let b = chunk[i];
            self.frame.push(b);
            proof {
                let t = chunk@.take(i + 1);
                assert(t =~= chunk@.take(i as int).push(b));
                if b == 10u8 {
                    assert(t[i as int] == 10u8);
                }
                if found {
                    let k = choose|k: int| 0 <= k < i && chunk@.take(i as int)[k] == 10u8;
                    assert(t[k] == 10u8);
                }
                if t.contains(10u8) {
                    let k = choose|k: int| 0 <= k < t.len() && t[k] == 10u8;
                    if k < i {
                        assert(chunk@.take(i as int)[k] == 10u8);
                    }
                }
            }
            found = found || b == 10;
            assert((before + chunk@.take(i as int)).push(b) =~= before + chunk@.take(i + 1));
            i = i + 1;
        }
        assert(chunk@.take(chunk@.len() as int) =~= chunk@);
        if found {
            return LineStep::Complete;
        }
        proof {
            if has_newline(self.frame@) {
                let k = choose|k: int| 0 <= k < self.frame@.len() && self.frame@[k] == 10u8;
                if k < before.len() {
                    assert(before[k] == 10u8);
                } else {
                    assert(chunk@[k - before.len()] == 10u8);
                }
            }
        }
        if self.frame.len() < MAX_WIRE_BYTES {
            LineStep::NeedMore
        } else {
            LineStep::Failed(io_error("request_too_large", "wire frame exceeds 512 bytes"))
        }
    }

    /// The message read: all bytes, newline included.
    pub fn into_frame(self) -> (frame: Vec<u8>)
        ensures
            frame@ == self.bytes(),
    {
        self.frame
    }
}

/// What one attempt to open the pipe as a client found.
#[derive(Debug, Clone, PartialEq)]
pub enum OpenOutcome {
    /// The pipe is open.
    Opened,
    /// No pipe of that name exists.
    NotFound,
    /// The pipe exists but every instance of it is serving someone else.
    Busy,
    /// Any other failure, with the system's description of it.
    Failed(String),
}

/// What the client does after an attempt to open the pipe.
#[derive(Debug, PartialEq)]
pub enum OpenAction {
    /// Use the pipe that was opened.
    Connected,
    /// Wait briefly, then try to open again.
    SleepThenRetry,
    /// Wait for a free instance for at most this many milliseconds.
    WaitForPipe(u32),
    /// Give up with this error.
    Fail(CommandError),
}

/// The value of an action after an attempt to open the pipe.
pub enum OpenActionView {
    Connected,
    SleepThenRetry,
    WaitForPipe(u32),
    Fail((Seq<char>, Seq<char>)),
}

impl View for OpenAction {
    type V = OpenActionView;

    open spec fn view(&self) -> OpenActionView {
        match self {
            OpenAction::Connected => OpenActionView::Connected,
            OpenAction::SleepThenRetry => OpenActionView::SleepThenRetry,
            OpenAction::WaitForPipe(ms) => OpenActionView::WaitForPipe(*ms),
            OpenAction::Fail(e) => OpenActionView::Fail(e@),
        }
    }
}

/// The error when no resident instance is listening.
pub open spec fn pipe_not_ready_error() -> (Seq<char>, Seq<char>) {
    ("pipe_not_found"@, "HoldRect command pipe is not ready"@)
}

/// The decision after an attempt to open the pipe, given whether a busy
/// pipe was seen before and how much time is left before the deadline.
///
/// A missing pipe is final on the first try: nothing is listening. After a
/// busy pipe was seen, a missing pipe only means the server is between
/// instances, so the client retries while time is left. A busy pipe is
/// waited for, within the time left.
pub open spec fn open_decision(saw_busy: bool, outcome: OpenOutcome, remaining_nanos: int) -> (
    bool,
    OpenActionView,
) {
    match outcome {
        OpenOutcome::Opened => (saw_busy, OpenActionView::Connected),
        OpenOutcome::NotFound => if !saw_busy {
            (false, OpenActionView::Fail(pipe_not_ready_error()))
        } else {
            match millis_budget(remaining_nanos) {
                Ok(_) => (true, OpenActionView::SleepThenRetry),
                Err(e) => (true, OpenActionView::Fail(e)),
            }
        },
        OpenOutcome::Busy => match millis_budget(remaining_nanos) {
            Ok(ms) => (true, OpenActionView::WaitForPipe(ms)),
            Err(e) => (true, OpenActionView::Fail(e)),
        },
        OpenOutcome::Failed(message) => (saw_busy, OpenActionView::Fail(("pipe_open"@, message@))),
    }
}

/// The client's decision after an attempt to open the pipe: whether a busy
/// pipe has now been seen, and what to do next.
pub fn after_open_attempt(saw_busy: bool, outcome: OpenOutcome, remaining_nanos: u128) -> (next: (
    bool,
    OpenAction,
))
    ensures
        (next.0, next.1@) == open_decision(saw_busy, outcome, remaining_nanos as int),
{
    match outcome {
        OpenOutcome::Opened => (saw_busy, OpenAction::Connected),
        OpenOutcome::NotFound => {
            if !saw_busy {
                return (
                    false,
                    OpenAction::Fail(io_error("pipe_not_found", "HoldRect command pipe is not ready")),
                );
            }
            match remaining_millis(remaining_nanos) {
                Ok(_) => (true, OpenAction::SleepThenRetry),
                Err(e) => (true, OpenAction::Fail(e)),
            }
        },
        OpenOutcome::Busy => match remaining_millis(remaining_nanos) {
            Ok(ms) => (true, OpenAction::WaitForPipe(ms)),
            Err(e) => (true, OpenAction::Fail(e)),
        },
        OpenOutcome::Failed(message) => (
            saw_busy,
            OpenAction::Fail(io_error("pipe_open", message.as_str())),
        ),
    }
}

/// The decision after waiting for a busy pipe: try again when an instance
/// became free or the server is between instances; otherwise give up.
pub fn after_pipe_wait(available: bool, last_error_not_found: bool) -> (failure: Option<
    CommandError,
>)
    ensures
        (available || last_error_not_found) <==> failure is None,
        failure matches Some(e) ==> e@ == ("pipe_timeout"@, "timed out waiting for busy pipe"@),
{
    if available || last_error_not_found {
        None
    } else {
        Some(io_error("pipe_timeout", "timed out waiting for busy pipe"))
    }
}

/// A client that finds no pipe on its first attempt gives up at once,
/// without waiting or retrying.
pub proof fn lemma_absent_pipe_fails_at_once(remaining_nanos: int)
    ensures
        open_decision(false, OpenOutcome::NotFound, remaining_nanos) == (
            false,
            OpenActionView::Fail(pipe_not_ready_error()),
        ),
{
}

/// No decision waits past the deadline: with no time left, a client that
/// would wait or retry gives up with the time-out instead.
pub proof fn lemma_no_wait_past_deadline(saw_busy: bool, outcome: OpenOutcome)
    ensures
        !(open_decision(saw_busy, outcome, 0).1 is WaitForPipe),
        !(open_decision(saw_busy, outcome, 0).1 is SleepThenRetry),
{
}

/// The system's code for a client that connected to the pipe before the
/// server started waiting for one.
pub const ERROR_PIPE_CONNECTED: u32 = 535;

/// The system's code for a client that connected and went away before the
/// server's wait completed.
pub const ERROR_NO_DATA: u32 = 232;

/// Whether waiting for a client on the server's pipe counts as connected,
/// given the system error it failed with, if any: success, a client that
/// connected first, and a client that already went away all count (the
/// read that follows finds the broken pipe in the last case).
pub fn connect_succeeded(error_code: Option<u32>) -> (connected: bool)
    ensures
        connected == (error_code is None || error_code == Some(ERROR_PIPE_CONNECTED) || error_code
            == Some(ERROR_NO_DATA)),
{
    match error_code {
        None => true,
        Some(code) => code == ERROR_PIPE_CONNECTED || code == ERROR_NO_DATA,
    }
}

/// What serving one client amounts to, given the error reading its request
/// failed with, if any, and the error writing the reply failed with, if
/// any: success once the reply is written; when the write fails, the read
/// error if there was one (the client probably went away while sending),
/// otherwise the write error.
pub fn serve_outcome(request_error: Option<CommandError>, write_error: Option<CommandError>) -> (r:
    Result<(), CommandError>)
    ensures
        write_error is None ==> r is Ok,
        write_error matches Some(we) ==> match request_error {
            Some(re) => (r matches Err(e) && e@ == re@),
            None => (r matches Err(e) && e@ == we@),
        },
{
    match write_error {
        None => Ok(()),
        Some(we) => match request_error {
            Some(re) => Err(re),
            None => Err(we),
        },
    }
}

/// The bytes of a reply left to write after one write of `written` bytes
/// out of `remaining`: an error when the write took nothing, as the pipe
/// would never drain.
pub fn after_write(remaining: usize, written: u32) -> (r: Result<usize, CommandError>)
    requires
        written <= remaining,
    ensures
        written == 0 ==> (r matches Err(e) && e@ == ("pipe_write"@, "named pipe wrote zero bytes"@)),
        written > 0 ==> r == Ok::<usize, CommandError>((remaining - written) as usize),
{
    if written == 0 {
        return Err(io_error("pipe_write", "named pipe wrote zero bytes"));
    }
    Ok(remaining - written as usize)
}

} // verus!
