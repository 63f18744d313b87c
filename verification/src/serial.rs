//! What to do with the result of one read from the serial port.
//!
//! A read may return some bytes, return nothing, time out, or fail. Waiting
//! for a reply of the Pi retries after a timeout and hands back any other
//! successful read, even an empty one; echoing the port to the terminal
//! forwards what came and keeps going after an empty read or a timeout.
//! Any other failure ends both.

use vstd::prelude::*;

verus! {

/// The result of one read from the serial port.
#[derive(Clone, Copy, Debug, PartialEq, Eq, Structural)]
pub enum ReadOutcome {
    /// The read returned this many bytes (possibly none).
    Bytes(usize),
    /// The read timed out.
    TimedOut,
    /// The read failed otherwise.
    Failed,
}

/// What waiting for a reply does after a read.
#[derive(Clone, Copy, Debug, PartialEq, Eq, Structural)]
pub enum ReplyDecision {
    /// The reply is this many bytes.
    Return(usize),
    /// Read again.
    Retry,
    /// Give up with the read's error.
    Fail,
}

/// What echoing does after a read.
#[derive(Clone, Copy, Debug, PartialEq, Eq, Structural)]
pub enum EchoDecision {
    /// Forward this many bytes to the terminal, then read again.
    Forward(usize),
    /// Read again.
    Wait,
    /// Stop with the read's error.
    Stop,
}

/// Decides after a read while waiting for a reply.
pub fn reply_decision(o: ReadOutcome) -> (d: ReplyDecision)
    ensures
        d == match o {
            ReadOutcome::Bytes(n) => ReplyDecision::Return(n),
            ReadOutcome::TimedOut => ReplyDecision::Retry,
            ReadOutcome::Failed => ReplyDecision::Fail,
        },
{
    match o {
        ReadOutcome::Bytes(n) => if n > 0 {
            ReplyDecision::Return(n)
        } else {
            ReplyDecision::Return(0)
        },
        ReadOutcome::TimedOut => ReplyDecision::Retry,
        ReadOutcome::Failed => ReplyDecision::Fail,
    }
}

/// Decides after a read while echoing the port.
pub fn echo_decision(o: ReadOutcome) -> (d: EchoDecision)
    ensures
        d == match o {
            ReadOutcome::Bytes(n) => if n > 0 {
                EchoDecision::Forward(n)
            } else {
                EchoDecision::Wait
            },
            ReadOutcome::TimedOut => EchoDecision::Wait,
            ReadOutcome::Failed => EchoDecision::Stop,
        },
{
    match o {
        ReadOutcome::Bytes(n) => if n > 0 {
            EchoDecision::Forward(n)
        } else {
            EchoDecision::Wait
        },
        ReadOutcome::TimedOut => EchoDecision::Wait,
        ReadOutcome::Failed => EchoDecision::Stop,
    }
}

} // verus!
