//! The burst controller: an arrow key held sends its command at every poll
//! (up before down before left before right); `g` and `h`, once per press,
//! send a burst of left or right turns spread over `BURST_DURATION_MS`.

use vstd::prelude::*;
use crate::keys::{
    holds, quit_keys, wants_quit, DriveOutput, Key, Poll, BACKWARD_COMMAND, BURST_DURATION_MS,
    FORWARD_COMMAND, POLL_INTERVAL_MS, TURN_LEFT_COMMAND, TURN_RIGHT_COMMAND,
};

verus! {

/// What the burst controller remembers between polls.
#[derive(Clone, Copy, Debug, PartialEq, Eq, Structural)]
pub struct PulseState {
    /// Whether `g` was held at the last poll.
    pub g_held: bool,
    /// Whether `h` was held at the last poll.
    pub h_held: bool,
}

impl PulseState {
    /// Nothing held.
    pub fn new() -> (s: PulseState)
        ensures
            s == (PulseState { g_held: false, h_held: false }),
    {
        PulseState { g_held: false, h_held: false }
    }
}

/// How many commands a burst sends.
pub open spec fn burst_len() -> nat {
    (BURST_DURATION_MS / POLL_INTERVAL_MS) as nat
}

/// `n` rounds of sending `command` and waiting one poll interval.
pub open spec fn burst(command: u8, n: nat) -> Seq<DriveOutput>
    decreases n,
{
    if n == 0 {
        Seq::empty()
    } else {
        burst(command, (n - 1) as nat) + seq![
            DriveOutput::Send(command),
            DriveOutput::Wait(POLL_INTERVAL_MS),
        ]
    }
}

/// The command an arrow held sends at every poll.
pub open spec fn steer(keys: Seq<Key>) -> Seq<DriveOutput> {
    if keys.contains(Key::Up) {
        seq![DriveOutput::Send(FORWARD_COMMAND)]
    } else if keys.contains(Key::Down) {
        seq![DriveOutput::Send(BACKWARD_COMMAND)]
    } else if keys.contains(Key::Left) {
        seq![DriveOutput::Send(TURN_LEFT_COMMAND)]
    } else if keys.contains(Key::Right) {
        seq![DriveOutput::Send(TURN_RIGHT_COMMAND)]
    } else {
        Seq::empty()
    }
}

/// What one poll with `keys` held asks for, from state `s`.
pub open spec fn pulse_outputs(s: PulseState, keys: Seq<Key>) -> Seq<DriveOutput> {
    if quit_keys(keys) {
        Seq::empty()
    } else {
        (if keys.contains(Key::G) && !s.g_held {
            burst(TURN_LEFT_COMMAND, burst_len())
        } else {
            Seq::empty()
        }) + (if keys.contains(Key::H) && !s.h_held {
            burst(TURN_RIGHT_COMMAND, burst_len())
        } else {
            Seq::empty()
        }) + steer(keys)
    }
}

/// The state after one poll with `keys` held.
pub open spec fn pulse_next(s: PulseState, keys: Seq<Key>) -> PulseState {
    if quit_keys(keys) {
        s
    } else {
        PulseState { g_held: keys.contains(Key::G), h_held: keys.contains(Key::H) }
    }
}

fn push_burst(out: &mut Vec<DriveOutput>, command: u8)
    ensures
        final(out)@ == old(out)@ + burst(command, burst_len()),
{
    let iterations: u64 = BURST_DURATION_MS / POLL_INTERVAL_MS;
    let mut i: u64 = 0;
    while i < iterations
        invariant
            iterations == burst_len(),
            i <= iterations,
            out@ == old(out)@ + burst(command, i as nat),
        decreases iterations - i,
    {
        out.push(DriveOutput::Send(command));
        out.push(DriveOutput::Wait(POLL_INTERVAL_MS));
        i = i + 1;
        assert(out@ =~= old(out)@ + burst(command, i as nat));
    }
}

/// One poll of the burst controller with `keys` held.
pub fn pulse_step(state: &mut PulseState, keys: &Vec<Key>) -> (p: Poll)
    ensures
        p.quit == quit_keys(keys@),
        p.outputs@ == pulse_outputs(*old(state), keys@),
        *final(state) == pulse_next(*old(state), keys@),
{
    let mut outputs: Vec<DriveOutput> = Vec::new();
    if wants_quit(keys) {
        return Poll { quit: true, outputs };
    }
    if holds(keys, Key::G) {
        if !state.g_held {
            state.g_held = true;
            push_burst(&mut outputs, TURN_LEFT_COMMAND);
        }
    } else {
        state.g_held = false;
    }
    if holds(keys, Key::H) {
        if !state.h_held {
            state.h_held = true;
            push_burst(&mut outputs, TURN_RIGHT_COMMAND);
        }
    } else {
        state.h_held = false;
    }
    let ghost before = outputs@;
    if holds(keys, Key::Up) {
        outputs.push(DriveOutput::Send(FORWARD_COMMAND));
    } else if holds(keys, Key::Down) {
        outputs.push(DriveOutput::Send(BACKWARD_COMMAND));
    } else if holds(keys, Key::Left) {
        outputs.push(DriveOutput::Send(TURN_LEFT_COMMAND));
    } else if holds(keys, Key::Right) {
        outputs.push(DriveOutput::Send(TURN_RIGHT_COMMAND));
    }
    assert(outputs@ =~= before + steer(keys@));
    assert(outputs@ =~= pulse_outputs(*old(state), keys@));
    Poll { quit: false, outputs }
}

/// Polling again with the same keys held repeats only the arrow's command:
/// a burst fires once per press.
pub proof fn lemma_pulse_burst_once(s: PulseState, keys: Seq<Key>)
    requires
        !quit_keys(keys),
    ensures
        pulse_outputs(pulse_next(s, keys), keys) == steer(keys),
{
    assert(pulse_outputs(pulse_next(s, keys), keys) =~= steer(keys));
}

/// A burst sends its command `n` times, each followed by a wait of one poll
/// interval.
pub proof fn lemma_burst_shape(command: u8, n: nat)
    ensures
        burst(command, n).len() == 2 * n,
        forall|i: int|
            0 <= i < 2 * n ==> #[trigger] burst(command, n)[i] == if i % 2 == 0 {
                DriveOutput::Send(command)
            } else {
                DriveOutput::Wait(POLL_INTERVAL_MS)
            },
    decreases n,
{
    if n > 0 {
        lemma_burst_shape(command, (n - 1) as nat);
        let prev = burst(command, (n - 1) as nat);
        let b = burst(command, n);
        assert forall|i: int| 0 <= i < 2 * n implies #[trigger] b[i] == if i % 2 == 0 {
            DriveOutput::Send(command)
        } else {
            DriveOutput::Wait(POLL_INTERVAL_MS)
        } by {
            if i < 2 * (n - 1) {
                assert(b[i] == prev[i]);
            }
        }
    }
}

/// Releasing `g` or `h` clears its memory, so pressing `g` again after a
/// poll without it bursts again: the poll begins with 20 rounds of sending
/// TURN_LEFT and waiting one poll interval. Likewise for `h` with TURN_RIGHT
/// (when `g` does not burst first).
pub proof fn lemma_pulse_press_after_release(s: PulseState, k1: Seq<Key>, k2: Seq<Key>)
    requires
        !quit_keys(k1),
        !quit_keys(k2),
    ensures
        !k1.contains(Key::G) ==> !pulse_next(s, k1).g_held,
        !k1.contains(Key::H) ==> !pulse_next(s, k1).h_held,
        ({
            let out = pulse_outputs(pulse_next(s, k1), k2);
            &&& !k1.contains(Key::G) && k2.contains(Key::G) ==> out.len() >= 40 && forall|i: int|
                0 <= i < 40 ==> #[trigger] out[i] == if i % 2 == 0 {
                    DriveOutput::Send(TURN_LEFT_COMMAND)
                } else {
                    DriveOutput::Wait(POLL_INTERVAL_MS)
                }
            &&& !k1.contains(Key::H) && k2.contains(Key::H) && !k2.contains(Key::G) ==> out.len()
                >= 40 && forall|i: int|
                0 <= i < 40 ==> #[trigger] out[i] == if i % 2 == 0 {
                    DriveOutput::Send(TURN_RIGHT_COMMAND)
                } else {
                    DriveOutput::Wait(POLL_INTERVAL_MS)
                }
        }),
{
    let out = pulse_outputs(pulse_next(s, k1), k2);
    assert(burst_len() == 20);
    lemma_burst_shape(TURN_LEFT_COMMAND, 20);
    lemma_burst_shape(TURN_RIGHT_COMMAND, 20);
    let lb = burst(TURN_LEFT_COMMAND, 20);
    let rb = burst(TURN_RIGHT_COMMAND, 20);
    if !k1.contains(Key::G) && k2.contains(Key::G) {
        assert forall|i: int| 0 <= i < 40 implies #[trigger] out[i] == if i % 2 == 0 {
            DriveOutput::Send(TURN_LEFT_COMMAND)
        } else {
            DriveOutput::Wait(POLL_INTERVAL_MS)
        } by {
            assert(out[i] == lb[i]);
        }
    }
    if !k1.contains(Key::H) && k2.contains(Key::H) && !k2.contains(Key::G) {
        assert forall|i: int| 0 <= i < 40 implies #[trigger] out[i] == if i % 2 == 0 {
            DriveOutput::Send(TURN_RIGHT_COMMAND)
        } else {
            DriveOutput::Wait(POLL_INTERVAL_MS)
        } by {
            assert(out[i] == rb[i]);
        }
    }
}

/// An arrow held is sent at every poll, after any burst, whatever was held
/// before: Up (forward) wins over Down (backward), Down over Left, Left over
/// Right.
pub proof fn lemma_pulse_steering(s: PulseState, keys: Seq<Key>)
    requires
        !quit_keys(keys),
    ensures
        ({
            let out = pulse_outputs(s, keys);
            &&& keys.contains(Key::Up) ==> out.last() == DriveOutput::Send(FORWARD_COMMAND)
            &&& !keys.contains(Key::Up) && keys.contains(Key::Down) ==> out.last()
                == DriveOutput::Send(BACKWARD_COMMAND)
            &&& !keys.contains(Key::Up) && !keys.contains(Key::Down) && keys.contains(Key::Left)
                ==> out.last() == DriveOutput::Send(TURN_LEFT_COMMAND)
            &&& !keys.contains(Key::Up) && !keys.contains(Key::Down) && !keys.contains(Key::Left)
                && keys.contains(Key::Right) ==> out.last() == DriveOutput::Send(TURN_RIGHT_COMMAND)
        }),
{
}

} // verus!
