//! The relay between a router's TCP peering and the datagrams between two
//! daemons: its constants and the pacing of its two loops.

use vstd::prelude::*;

verus! {

/// Stack of each of the relay's threads, in bytes.
pub const STACK_SIZE: usize = 128 * 1024;

/// Size of the buffer of each direction, in bytes.
pub const BUF_SIZE: usize = 1 << 14;

/// Longest time between two updates of the reliable channel, in milliseconds.
pub const INTERVAL: u32 = 100;

/// The reliable channel sends without delay.
pub const NODELAY: bool = true;

/// The reliable channel controls congestion.
pub const CONGESTION_CONTROL: bool = true;

/// The clock of the reliable channel: the milliseconds since the relay
/// started, in 32 bits that wrap around.
pub fn clock(elapsed_millis: u128) -> (r: u32)
    ensures
        r == elapsed_millis % 0x1_0000_0000,
{
    (elapsed_millis % 0x1_0000_0000) as u32
}

/// Whether the sender holds back until the reliable channel has sent some of
/// what waits: more waits than its window takes.
pub fn is_congested(waiting: usize, window: u16) -> (r: bool)
    ensures
        r == (waiting > window),
{
    waiting > window as usize
}

/// How a blocking read of the relay ended.
#[derive(Debug, Clone, Copy, PartialEq, Eq, Structural)]
pub enum ReadOutcome {
    /// The stream is at its end.
    Closed,
    /// So many bytes were read.
    Data(usize),
    /// Nothing came before the timeout.
    Idle,
    /// The read was interrupted.
    Interrupted,
    /// The read failed otherwise.
    Failed,
}

/// What a loop of the relay does after a read.
#[derive(Debug, Clone, Copy, PartialEq, Eq, Structural)]
pub enum Step {
    /// It ends.
    Stop,
    /// It reads again at once.
    Retry,
    /// It passes the bytes on, of which there are so many with those left
    /// from the read before, and then serves the reliable channel.
    Feed(usize),
    /// It serves the reliable channel.
    Tick,
}

/// What the loop that reads from the router does after a read that found
/// `left` bytes in the buffer from the read before: it ends with the
/// stream and on a failure.
pub fn router_step(outcome: ReadOutcome, left: usize) -> (r: Step)
    requires
        outcome matches ReadOutcome::Data(read) ==> read + left <= usize::MAX,
    ensures
        r == match outcome {
            ReadOutcome::Closed | ReadOutcome::Failed => Step::Stop,
            ReadOutcome::Data(read) => if read == 0 {
                Step::Stop
            } else {
                Step::Feed((read + left) as usize)
            },
            ReadOutcome::Idle => Step::Tick,
            ReadOutcome::Interrupted => Step::Retry,
        },
{
    match outcome {
        ReadOutcome::Closed | ReadOutcome::Failed => Step::Stop,
        ReadOutcome::Data(read) => {
            if read == 0 {
                Step::Stop
            } else {
                Step::Feed(read + left)
            }
        },
        ReadOutcome::Idle => Step::Tick,
        ReadOutcome::Interrupted => Step::Retry,
    }
}

/// What the loop that reads from the peer does after a read: a datagram is
/// passed on, whatever its length, and no failure ends the loop.
pub fn peer_step(outcome: ReadOutcome) -> (r: Step)
    ensures
        r == match outcome {
            ReadOutcome::Data(read) => Step::Feed(read),
            ReadOutcome::Closed | ReadOutcome::Idle => Step::Tick,
            ReadOutcome::Interrupted | ReadOutcome::Failed => Step::Retry,
        },
{
    match outcome {
        ReadOutcome::Data(read) => Step::Feed(read),
        ReadOutcome::Closed | ReadOutcome::Idle => Step::Tick,
        ReadOutcome::Interrupted | ReadOutcome::Failed => Step::Retry,
    }
}

/// What a loop of the relay does with the timeout of its blocking read.
#[derive(Debug, Clone, Copy, PartialEq, Eq, Structural)]
pub enum Pace {
    /// Nothing waits to be sent and the next update is far: read without a
    /// timeout, after taking an earlier timeout off where `clear` says so.
    Idle { clear: bool },
    /// Read with the timeout that is set.
    Keep,
    /// Read with a timeout of the given milliseconds.
    Arm(u32),
}

/// The distance between two numbers.
pub open spec fn distance(a: u32, b: u32) -> int {
    if a <= b {
        b - a
    } else {
        a - b
    }
}

/// How a loop paces its next read. With nothing to send and the next update
/// of the reliable channel within a sixteenth of the interval from its
/// longest, the read waits for data alone. Else the read times out when the
/// next update is due; the timeout is set anew only where it differs from the
/// one that is set by a sixteenth of itself or more.
pub open spec fn spec_pace(send_queue: usize, next_update: u32, last_timeout: u32) -> Pace {
    if send_queue == 0 && next_update + INTERVAL / 16 > INTERVAL {
        Pace::Idle { clear: last_timeout != 0 }
    } else if distance(last_timeout, next_update) >= next_update / 16 {
        Pace::Arm(next_update)
    } else {
        Pace::Keep
    }
}

/// Decides on the timeout of the next read: `send_queue` is what waits in the
/// reliable channel, `next_update` the milliseconds to its next update,
/// `last_timeout` the timeout that is set, 0 for none.
pub fn pace(send_queue: usize, next_update: u32, last_timeout: u32) -> (r: Pace)
    ensures
        r == spec_pace(send_queue, next_update, last_timeout),
{
    if send_queue == 0 && next_update as u64 + (INTERVAL / 16) as u64 > INTERVAL as u64 {
        return Pace::Idle { clear: last_timeout != 0 };
    }
    let apart: u32 = if last_timeout <= next_update {
        next_update - last_timeout
    } else {
        last_timeout - next_update
    };
    if apart >= next_update / 16 {
        Pace::Arm(next_update)
    } else {
        Pace::Keep
    }
}

/// The timeout that is set after a loop has paced its read.
pub fn timeout_after(pace: Pace, last_timeout: u32) -> (r: u32)
    ensures
        r == match pace {
            Pace::Idle { .. } => 0,
            Pace::Keep => last_timeout,
            Pace::Arm(timeout) => timeout,
        },
{
    match pace {
        Pace::Idle { .. } => 0,
        Pace::Keep => last_timeout,
        Pace::Arm(timeout) => timeout,
    }
}

} // verus!
