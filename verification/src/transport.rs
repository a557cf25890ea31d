//! What a sender does with the outcome of one datagram send.
//!
//! The direct path sends from the capture callback over a socket that never
//! blocks: a datagram that cannot leave at once is dropped and never tried
//! again, because stalling the callback would cost more samples than the
//! datagram held. The bridged path sends from its own thread with a bounded
//! wait: a send that does not finish in time ends the session. Any other
//! failure of a send is fatal on either path: a datagram socket has no
//! connection to restore.

use vstd::prelude::*;

verus! {

/// Longest time, in milliseconds, that a send with a bounded wait may take.
pub const SEND_TIMEOUT_MILLIS: u64 = 1000;

/// How the socket of a session was set up.
#[derive(Clone, Copy, Debug, PartialEq, Eq, Structural)]
pub enum SendMode {
    /// Never blocks; used by the direct path.
    BestEffort,
    /// Blocks for at most a fixed time; used by the bridged path.
    BoundedTimeout,
}

/// How one send ended.
#[derive(Clone, Copy, Debug, PartialEq, Eq, Structural)]
pub enum SendOutcome {
    /// The datagram was handed to the network.
    Sent,
    /// The socket could not take the datagram at once.
    WouldBlock,
    /// The socket did not take the datagram within the time allowed.
    TimedOut,
    /// The socket reported any other error.
    Failed,
}

/// What the sender does next.
#[derive(Clone, Copy, Debug, PartialEq, Eq, Structural)]
pub enum Verdict {
    /// Go on with the next datagram.
    Proceed,
    /// The datagram is lost; go on with the next one without a retry.
    Dropped,
    /// Stop sending and end the process with a failure status.
    Fatal,
}

/// The policy: only a socket that was set up never to block may lose a
/// datagram to a busy network and go on; everything else but success is
/// fatal.
pub open spec fn verdict_of(mode: SendMode, outcome: SendOutcome) -> Verdict {
    match outcome {
        SendOutcome::Sent => Verdict::Proceed,
        SendOutcome::WouldBlock => if mode == SendMode::BestEffort {
            Verdict::Dropped
        } else {
            Verdict::Fatal
        },
        SendOutcome::TimedOut => Verdict::Fatal,
        SendOutcome::Failed => Verdict::Fatal,
    }
}

/// Decides what follows a send: see [`verdict_of`].
pub fn after_send(mode: SendMode, outcome: SendOutcome) -> (verdict: Verdict)
    ensures
        verdict == verdict_of(mode, outcome),
{
    match outcome {
        SendOutcome::Sent => Verdict::Proceed,
        SendOutcome::WouldBlock => match mode {
            SendMode::BestEffort => Verdict::Dropped,
            SendMode::BoundedTimeout => Verdict::Fatal,
        },
        SendOutcome::TimedOut => Verdict::Fatal,
        SendOutcome::Failed => Verdict::Fatal,
    }
}

} // verus!
