//! The arrow-key controller. Holding an arrow drives in its direction until
//! it is released (then the robot stops) or another arrow takes over; `g`
//! gives a timed right-turn pulse and `h` a timed forward pulse, once per
//! press.

use vstd::prelude::*;
use crate::keys::{
    arrow_command_of, arrow_to_command, find_arrow, first_arrow, holds, quit_keys, wants_quit,
    DriveOutput, Key, Poll, FORWARD_COMMAND, PULSE_DURATION_MS, STOP_COMMAND, TURN_RIGHT_COMMAND,
};

verus! {

/// What the arrow-key controller remembers between polls.
#[derive(Clone, Copy, Debug, PartialEq, Eq, Structural)]
pub struct DriveState {
    /// The arrow key being acted on.
    pub active: Option<Key>,
    /// Whether `g` was held at the last poll.
    pub g_held: bool,
    /// Whether `h` was held at the last poll.
    pub h_held: bool,
}

/// A timed pulse: announce, send the command, wait, send the stop, announce
/// the stop.
pub open spec fn pulse(label: &'static str, command: u8) -> Seq<DriveOutput> {
    seq![
        DriveOutput::Announce(label),
        DriveOutput::Send(command),
        DriveOutput::Wait(PULSE_DURATION_MS),
        DriveOutput::Send(STOP_COMMAND),
        DriveOutput::Announce("STOP"),
    ]
}

/// What a change of the arrow held asks for.
pub open spec fn arrow_outputs(active: Option<Key>, current: Option<Key>) -> Seq<DriveOutput> {
    match (active, current) {
        (None, Some(k)) => seq![
            DriveOutput::Announce(arrow_command_of(k).unwrap().1),
            DriveOutput::Send(arrow_command_of(k).unwrap().0),
        ],
        (Some(p), Some(k)) => if p != k {
            seq![
                DriveOutput::Announce(arrow_command_of(k).unwrap().1),
                DriveOutput::Send(arrow_command_of(k).unwrap().0),
            ]
        } else {
            Seq::empty()
        },
        (Some(_), None) => seq![DriveOutput::Announce("STOP"), DriveOutput::Send(STOP_COMMAND)],
        (None, None) => Seq::empty(),
    }
}

/// What one poll with `keys` held asks for, from state `s`.
pub open spec fn drive_outputs(s: DriveState, keys: Seq<Key>) -> Seq<DriveOutput> {
    if quit_keys(keys) {
        Seq::empty()
    } else {
        (if keys.contains(Key::G) && !s.g_held {
            pulse("PULSE TURN RIGHT", TURN_RIGHT_COMMAND)
        } else {
            Seq::empty()
        }) + (if keys.contains(Key::H) && !s.h_held {
            pulse("PULSE FORWARD", FORWARD_COMMAND)
        } else {
            Seq::empty()
        }) + arrow_outputs(s.active, first_arrow(keys))
    }
}

/// The state after one poll with `keys` held.
pub open spec fn drive_next(s: DriveState, keys: Seq<Key>) -> DriveState {
    if quit_keys(keys) {
        s
    } else {
        DriveState {
            active: first_arrow(keys),
            g_held: keys.contains(Key::G),
            h_held: keys.contains(Key::H),
        }
    }
}

impl DriveState {
    /// Nothing held, nothing active.
    pub fn new() -> (s: DriveState)
        ensures
            s == (DriveState { active: None, g_held: false, h_held: false }),
    {
        DriveState { active: None, g_held: false, h_held: false }
    }
}

proof fn lemma_first_arrow_is_arrow(keys: Seq<Key>)
    ensures
        first_arrow(keys) matches Some(k) ==> arrow_command_of(k) is Some,
    decreases keys.len(),
{
    if keys.len() > 0 {
        lemma_first_arrow_is_arrow(keys.drop_first());
    }
}

fn push_pulse(out: &mut Vec<DriveOutput>, label: &'static str, command: u8)
    ensures
        final(out)@ == old(out)@ + pulse(label, command),
{
    out.push(DriveOutput::Announce(label));
    out.push(DriveOutput::Send(command));
    out.push(DriveOutput::Wait(PULSE_DURATION_MS));
    out.push(DriveOutput::Send(STOP_COMMAND));
    out.push(DriveOutput::Announce("STOP"));
    assert(out@ =~= old(out)@ + pulse(label, command));
}

/// One poll of the arrow-key controller with `keys` held, in the order the
/// keyboard reports them.
pub fn drive_step(state: &mut DriveState, keys: &Vec<Key>) -> (p: Poll)
    ensures
        p.quit == quit_keys(keys@),
        p.outputs@ == drive_outputs(*old(state), keys@),
        *final(state) == drive_next(*old(state), keys@),
{
    let mut outputs: Vec<DriveOutput> = Vec::new();
    if wants_quit(keys) {
        return Poll { quit: true, outputs };
    }
    if holds(keys, Key::G) {
        if !state.g_held {
            state.g_held = true;
            push_pulse(&mut outputs, "PULSE TURN RIGHT", TURN_RIGHT_COMMAND);
        }
    } else {
        state.g_held = false;
    }
    if holds(keys, Key::H) {
        if !state.h_held {
            state.h_held = true;
            push_pulse(&mut outputs, "PULSE FORWARD", FORWARD_COMMAND);
        }
    } else {
        state.h_held = false;
    }
    let current = find_arrow(keys);
    proof {
        lemma_first_arrow_is_arrow(keys@);
    }
    let ghost before = outputs@;
    match (state.active, current) {
        (None, Some(key)) => {
            let (cmd, label) = arrow_to_command(&key).unwrap();
            outputs.push(DriveOutput::Announce(label));
            outputs.push(DriveOutput::Send(cmd));
            state.active = Some(key);
        },
        (Some(prev), Some(key)) => {
            if prev != key {
                let (cmd, label) = arrow_to_command(&key).unwrap();
                outputs.push(DriveOutput::Announce(label));
                outputs.push(DriveOutput::Send(cmd));
                state.active = Some(key);
            }
        },
        (Some(_), None) => {
            outputs.push(DriveOutput::Announce("STOP"));
            outputs.push(DriveOutput::Send(STOP_COMMAND));
            state.active = None;
        },
        (None, None) => {},
    }
    assert(outputs@ =~= before + arrow_outputs(old(state).active, first_arrow(keys@)));
    assert(outputs@ =~= drive_outputs(*old(state), keys@));
    Poll { quit: false, outputs }
}

/// Polling again with the same keys held asks for nothing: a pulse fires
/// once per press, and a held arrow is sent once.
pub proof fn lemma_drive_repeat_is_quiet(s: DriveState, keys: Seq<Key>)
    ensures
        drive_outputs(drive_next(s, keys), keys) == Seq::<DriveOutput>::empty(),
{
    assert(drive_outputs(drive_next(s, keys), keys) =~= Seq::<DriveOutput>::empty());
}

/// Releasing every key while an arrow is active stops the robot, and the
/// controller forgets the arrow.
pub proof fn lemma_drive_release_stops(s: DriveState)
    requires
        s.active is Some,
    ensures
        drive_outputs(s, Seq::empty()) == seq![
            DriveOutput::Announce("STOP"),
            DriveOutput::Send(STOP_COMMAND),
        ],
        drive_next(s, Seq::empty()).active is None,
{
    let e = Seq::<Key>::empty();
    assert(!e.contains(Key::G));
    assert(!e.contains(Key::H));
    assert(!quit_keys(e));
    assert(drive_outputs(s, e) =~= seq![
        DriveOutput::Announce("STOP"),
        DriveOutput::Send(STOP_COMMAND),
    ]);
}

/// A newly pressed `g` (not held at the last poll) gives the timed right
/// turn: announce it, send TURN_RIGHT, wait `PULSE_DURATION_MS`, send STOP,
/// announce the stop; a newly pressed `h` then gives the same timed pulse
/// with FORWARD. Nothing is sent before them.
pub proof fn lemma_drive_pulse_shape(s: DriveState, keys: Seq<Key>)
    requires
        !quit_keys(keys),
    ensures
        ({
            let out = drive_outputs(s, keys);
            let g_fires = keys.contains(Key::G) && !s.g_held;
            let h_fires = keys.contains(Key::H) && !s.h_held;
            let off: int = if g_fires { 5 } else { 0 };
            &&& g_fires ==> out.len() >= 5 && out.take(5) == seq![
                DriveOutput::Announce("PULSE TURN RIGHT"),
                DriveOutput::Send(TURN_RIGHT_COMMAND),
                DriveOutput::Wait(PULSE_DURATION_MS),
                DriveOutput::Send(STOP_COMMAND),
                DriveOutput::Announce("STOP"),
            ]
            &&& h_fires ==> out.len() >= off + 5 && out.subrange(off, off + 5) == seq![
                DriveOutput::Announce("PULSE FORWARD"),
                DriveOutput::Send(FORWARD_COMMAND),
                DriveOutput::Wait(PULSE_DURATION_MS),
                DriveOutput::Send(STOP_COMMAND),
                DriveOutput::Announce("STOP"),
            ]
        }),
{
    let out = drive_outputs(s, keys);
    let g_fires = keys.contains(Key::G) && !s.g_held;
    let h_fires = keys.contains(Key::H) && !s.h_held;
    let off: int = if g_fires { 5 } else { 0 };
    if g_fires {
        assert(out.take(5) =~= seq![
            DriveOutput::Announce("PULSE TURN RIGHT"),
            DriveOutput::Send(TURN_RIGHT_COMMAND),
            DriveOutput::Wait(PULSE_DURATION_MS),
            DriveOutput::Send(STOP_COMMAND),
            DriveOutput::Announce("STOP"),
        ]);
    }
    if h_fires {
        assert(out.subrange(off, off + 5) =~= seq![
            DriveOutput::Announce("PULSE FORWARD"),
            DriveOutput::Send(FORWARD_COMMAND),
            DriveOutput::Wait(PULSE_DURATION_MS),
            DriveOutput::Send(STOP_COMMAND),
            DriveOutput::Announce("STOP"),
        ]);
    }
}

/// With no arrow key held, a poll never leaves the robot moving: every
/// command it sends other than STOP is followed, later in the same poll, by
/// a STOP.
pub proof fn lemma_drive_no_arrow_ends_stopped(s: DriveState, keys: Seq<Key>)
    requires
        first_arrow(keys) is None,
    ensures
        ({
            let out = drive_outputs(s, keys);
            forall|i: int|
                0 <= i < out.len() && (#[trigger] out[i] matches DriveOutput::Send(c) && c
                    != STOP_COMMAND) ==> exists|j: int|
                    i < j < out.len() && #[trigger] out[j] == DriveOutput::Send(STOP_COMMAND)
        }),
{
    let out = drive_outputs(s, keys);
    if !quit_keys(keys) {
        let g_fires = keys.contains(Key::G) && !s.g_held;
        let h_fires = keys.contains(Key::H) && !s.h_held;
        let gp = if g_fires {
            pulse("PULSE TURN RIGHT", TURN_RIGHT_COMMAND)
        } else {
            Seq::<DriveOutput>::empty()
        };
        let hp = if h_fires {
            pulse("PULSE FORWARD", FORWARD_COMMAND)
        } else {
            Seq::<DriveOutput>::empty()
        };
        let ap = arrow_outputs(s.active, None);
        assert(out == gp + hp + ap);
        assert forall|i: int|
            0 <= i < out.len() && (#[trigger] out[i] matches DriveOutput::Send(c) && c
                != STOP_COMMAND) implies exists|j: int|
                i < j < out.len() && #[trigger] out[j] == DriveOutput::Send(STOP_COMMAND) by {
            if i < gp.len() {
                assert(out[i] == gp[i]);
                assert(i == 1);
                assert(out[3] == gp[3]);
            } else if i < gp.len() + hp.len() {
                assert(out[i] == hp[i - gp.len()]);
                assert(i - gp.len() == 1);
                assert(out[i + 2] == hp[3]);
            } else {
                assert(out[i] == ap[i - gp.len() - hp.len()]);
            }
        }
    }
}

} // verus!
