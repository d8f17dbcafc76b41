//! The relay between two datagram sockets: its constants.

use crate::proxy_tcp::{ReadOutcome, Step};
use vstd::prelude::*;

verus! {

/// Size of the buffer of each direction, in bytes: a datagram of a QUIC
/// peering is shorter.
pub const BUF_SIZE: usize = 1500;

/// Stack of each of the relay's threads, in bytes.
pub const STACK_SIZE: usize = 32 * 1024;

/// What a direction of the relay does after a receive: it passes a
/// datagram on, tries again after an interruption, and ends on a timeout and
/// on every other failure.
pub fn forward_step(outcome: ReadOutcome) -> (r: Step)
    ensures
        r == match outcome {
            ReadOutcome::Data(read) => Step::Feed(read),
            ReadOutcome::Interrupted => Step::Retry,
            ReadOutcome::Closed | ReadOutcome::Idle | ReadOutcome::Failed => Step::Stop,
        },
{
    match outcome {
        ReadOutcome::Data(read) => Step::Feed(read),
        ReadOutcome::Interrupted => Step::Retry,
        ReadOutcome::Closed | ReadOutcome::Idle | ReadOutcome::Failed => Step::Stop,
    }
}

} // verus!
