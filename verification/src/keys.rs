//! Keys, robot commands and what the controllers ask the program around them
//! to do.

use vstd::prelude::*;

verus! {

/// Turn left.
pub const TURN_LEFT_COMMAND: u8 = 0x01;
/// Turn right.
pub const TURN_RIGHT_COMMAND: u8 = 0x02;
/// Drive forward.
pub const FORWARD_COMMAND: u8 = 0x03;
/// Drive backward.
pub const BACKWARD_COMMAND: u8 = 0x04;
/// Stop.
pub const STOP_COMMAND: u8 = 0x05;
/// The robot's acknowledgement.
pub const ACK: u8 = 0x06;

/// Time between two polls of the keyboard.
pub const POLL_INTERVAL_MS: u64 = 10;
/// How long a timed pulse lasts before the stop.
pub const PULSE_DURATION_MS: u64 = 160;
/// How long a burst of repeated commands lasts.
pub const BURST_DURATION_MS: u64 = 200;

/// The keys the controllers react to; every other key is `Other`.
#[derive(Clone, Copy, Debug, PartialEq, Eq, Structural)]
pub enum Key {
    Up,
    Down,
    Left,
    Right,
    Q,
    Escape,
    G,
    H,
    X,
    C,
    V,
    B,
    N,
    M,
    Other,
}

/// One thing for the program around a controller to do, in order.
#[derive(Clone, Copy, Debug, PartialEq, Eq)]
pub enum DriveOutput {
    /// Print this label on a line of its own.
    Announce(&'static str),
    /// Send this one-byte command.
    Send(u8),
    /// Send this command followed by its amount.
    SendAmount(u8, u8),
    /// Wait this many milliseconds.
    Wait(u64),
}

/// The result of one poll of the keyboard.
#[derive(Debug)]
pub struct Poll {
    /// Whether to leave the controller.
    pub quit: bool,
    /// What to do, in order.
    pub outputs: Vec<DriveOutput>,
}

/// Whether `k` is among the keys held.
pub fn holds(keys: &Vec<Key>, k: Key) -> (b: bool)
    ensures
        b == keys@.contains(k),
{
    let mut i: usize = 0;
    while i < keys.len()
        invariant
            i <= keys@.len(),
            forall|j: int| 0 <= j < i ==> keys@[j] != k,
        decreases keys@.len() - i,
    {
        if keys[i] == k {
            assert(keys@[i as int] == k);
            return true;
        }
        i = i + 1;
    }
    false
}

/// Whether the keys held ask to leave: `q` or Escape.
pub open spec fn quit_keys(keys: Seq<Key>) -> bool {
    keys.contains(Key::Q) || keys.contains(Key::Escape)
}

/// Whether the keys held ask to leave.
pub fn wants_quit(keys: &Vec<Key>) -> (b: bool)
    ensures
        b == quit_keys(keys@),
{
    holds(keys, Key::Q) || holds(keys, Key::Escape)
}

/// The command and label of an arrow key; `None` for any other key.
pub open spec fn arrow_command_of(key: Key) -> Option<(u8, &'static str)> {
    match key {
        Key::Up => Some((FORWARD_COMMAND, "FORWARD")),
        Key::Down => Some((BACKWARD_COMMAND, "BACKWARD")),
        Key::Left => Some((TURN_LEFT_COMMAND, "TURN LEFT")),
        Key::Right => Some((TURN_RIGHT_COMMAND, "TURN RIGHT")),
        _ => None,
    }
}

/// The command and label of an arrow key; `None` for any other key.
pub fn arrow_to_command(key: &Key) -> (r: Option<(u8, &'static str)>)
    ensures
        r == arrow_command_of(*key),
{
    match key {
        Key::Up => Some((FORWARD_COMMAND, "FORWARD")),
        Key::Down => Some((BACKWARD_COMMAND, "BACKWARD")),
        Key::Left => Some((TURN_LEFT_COMMAND, "TURN LEFT")),
        Key::Right => Some((TURN_RIGHT_COMMAND, "TURN RIGHT")),
        _ => None,
    }
}

/// The first arrow key in the list of keys held.
pub open spec fn first_arrow(keys: Seq<Key>) -> Option<Key>
    decreases keys.len(),
{
    if keys.len() == 0 {
        None
    } else if arrow_command_of(keys[0]) is Some {
        Some(keys[0])
    } else {
        first_arrow(keys.drop_first())
    }
}

/// The first arrow key in the list of keys held.
pub fn find_arrow(keys: &Vec<Key>) -> (r: Option<Key>)
    ensures
        r == first_arrow(keys@),
{
    let mut i: usize = 0;
    assert(keys@.subrange(0, keys@.len() as int) =~= keys@);
    while i < keys.len()
        invariant
            i <= keys@.len(),
            first_arrow(keys@) == first_arrow(keys@.subrange(i as int, keys@.len() as int)),
        decreases keys@.len() - i,
    {
        let k = keys[i];
        let ghost rest = keys@.subrange(i as int, keys@.len() as int);
        assert(rest[0] == k);
        if arrow_to_command(&k).is_some() {
            return Some(k);
        }
        assert(rest.drop_first() =~= keys@.subrange(i + 1, keys@.len() as int));
        i = i + 1;
    }
    assert(keys@.subrange(i as int, keys@.len() as int).len() == 0);
    None
}

/// Up drives forward, Down backward, Left turns left, Right turns right;
/// no other key is an arrow.
pub proof fn lemma_arrow_commands(k: Key)
    ensures
        arrow_command_of(Key::Up) == Some((FORWARD_COMMAND, "FORWARD")),
        arrow_command_of(Key::Down) == Some((BACKWARD_COMMAND, "BACKWARD")),
        arrow_command_of(Key::Left) == Some((TURN_LEFT_COMMAND, "TURN LEFT")),
        arrow_command_of(Key::Right) == Some((TURN_RIGHT_COMMAND, "TURN RIGHT")),
        arrow_command_of(k) is Some <==> (k == Key::Up || k == Key::Down || k == Key::Left || k
            == Key::Right),
{
}

/// The arrow acted on is the earliest arrow key in the list the keyboard
/// reports, and there is none exactly when no arrow key is held.
pub proof fn lemma_first_arrow(keys: Seq<Key>)
    ensures
        first_arrow(keys) matches Some(k) ==> exists|i: int|
            0 <= i < keys.len() && keys[i] == k && arrow_command_of(k) is Some && forall|j: int|
                0 <= j < i ==> arrow_command_of(#[trigger] keys[j]) is None,
        first_arrow(keys) is None <==> forall|j: int|
            0 <= j < keys.len() ==> arrow_command_of(#[trigger] keys[j]) is None,
    decreases keys.len(),
{
    if keys.len() > 0 {
        let rest = keys.drop_first();
        lemma_first_arrow(rest);
        if arrow_command_of(keys[0]) is None {
            if let Some(k) = first_arrow(rest) {
                let i = choose|i: int|
                    0 <= i < rest.len() && rest[i] == k && arrow_command_of(k) is Some && forall|
                        j: int,
                    | 0 <= j < i ==> arrow_command_of(#[trigger] rest[j]) is None;
                assert(keys[i + 1] == k);
                assert forall|j: int| 0 <= j < i + 1 implies arrow_command_of(
                    #[trigger] keys[j],
                ) is None by {
                    if j > 0 {
                        assert(keys[j] == rest[j - 1]);
                    }
                }
            }
            if first_arrow(rest) is None {
                assert forall|j: int| 0 <= j < keys.len() implies arrow_command_of(
                    #[trigger] keys[j],
                ) is None by {
                    if j > 0 {
                        assert(keys[j] == rest[j - 1]);
                    }
                }
            } else {
                let k = first_arrow(rest)->0;
                let i = choose|i: int|
                    0 <= i < rest.len() && rest[i] == k && arrow_command_of(k) is Some && forall|
                        j: int,
                    | 0 <= j < i ==> arrow_command_of(#[trigger] rest[j]) is None;
                assert(keys[i + 1] == rest[i]);
            }
        }
    }
}

} // verus!
