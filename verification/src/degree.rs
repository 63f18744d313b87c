//! The step controller: each bound key, once per press, sends a command
//! with an amount (degrees for turns, inches for drives).

use vstd::prelude::*;
use crate::keys::{
    holds, quit_keys, wants_quit, DriveOutput, Key, Poll, BACKWARD_COMMAND, FORWARD_COMMAND,
    TURN_LEFT_COMMAND, TURN_RIGHT_COMMAND,
};

verus! {

/// Number of bound keys.
pub const DEGREE_BINDINGS: usize = 12;

/// Binding `i`: the key, the command and its amount, in the order the keys
/// are looked at.
pub open spec fn binding_of(i: int) -> (Key, u8, u8) {
    if i == 0 {
        (Key::G, TURN_LEFT_COMMAND, 30)
    } else if i == 1 {
        (Key::H, TURN_RIGHT_COMMAND, 30)
    } else if i == 2 {
        (Key::Left, TURN_LEFT_COMMAND, 15)
    } else if i == 3 {
        (Key::Right, TURN_RIGHT_COMMAND, 15)
    } else if i == 4 {
        (Key::Up, FORWARD_COMMAND, 6)
    } else if i == 5 {
        (Key::Down, BACKWARD_COMMAND, 6)
    } else if i == 6 {
        (Key::X, FORWARD_COMMAND, 1)
    } else if i == 7 {
        (Key::C, FORWARD_COMMAND, 2)
    } else if i == 8 {
        (Key::V, FORWARD_COMMAND, 4)
    } else if i == 9 {
        (Key::B, FORWARD_COMMAND, 6)
    } else if i == 10 {
        (Key::N, FORWARD_COMMAND, 10)
    } else {
        (Key::M, FORWARD_COMMAND, 14)
    }
}

/// Binding `i`.
pub fn binding(i: usize) -> (b: (Key, u8, u8))
    requires
        i < DEGREE_BINDINGS,
    ensures
        b == binding_of(i as int),
{
    match i {
        0 => (Key::G, TURN_LEFT_COMMAND, 30),
        1 => (Key::H, TURN_RIGHT_COMMAND, 30),
        2 => (Key::Left, TURN_LEFT_COMMAND, 15),
        3 => (Key::Right, TURN_RIGHT_COMMAND, 15),
        4 => (Key::Up, FORWARD_COMMAND, 6),
        5 => (Key::Down, BACKWARD_COMMAND, 6),
        6 => (Key::X, FORWARD_COMMAND, 1),
        7 => (Key::C, FORWARD_COMMAND, 2),
        8 => (Key::V, FORWARD_COMMAND, 4),
        9 => (Key::B, FORWARD_COMMAND, 6),
        10 => (Key::N, FORWARD_COMMAND, 10),
        _ => (Key::M, FORWARD_COMMAND, 14),
    }
}

/// What the first `n` bindings ask for, given which keys were held at the
/// last poll and which are held now.
pub open spec fn degree_outputs(held: Seq<bool>, keys: Seq<Key>, n: nat) -> Seq<DriveOutput>
    decreases n,
{
    if n == 0 {
        Seq::empty()
    } else {
        let (k, cmd, amount) = binding_of(n - 1);
        degree_outputs(held, keys, (n - 1) as nat) + if keys.contains(k) && !held[n - 1] {
            seq![DriveOutput::SendAmount(cmd, amount)]
        } else {
            Seq::empty()
        }
    }
}

/// Which bound keys count as held after a poll with `keys` held.
pub open spec fn held_after(keys: Seq<Key>) -> Seq<bool> {
    Seq::new(DEGREE_BINDINGS as nat, |i: int| keys.contains(binding_of(i).0))
}

/// What the step controller remembers between polls: which bound keys were
/// held.
pub struct DegreeState {
    held: Vec<bool>,
}

impl DegreeState {
    #[verifier::type_invariant]
    spec fn one_flag_per_binding(self) -> bool {
        self.held@.len() == DEGREE_BINDINGS
    }

    /// For each binding, whether its key was held at the last poll.
    pub closed spec fn held(self) -> Seq<bool> {
        self.held@
    }

    /// Nothing held.
    pub fn new() -> (s: DegreeState)
        ensures
            s.held() == Seq::new(DEGREE_BINDINGS as nat, |i: int| false),
    {
        let mut held: Vec<bool> = Vec::new();
        let mut i: usize = 0;
        while i < DEGREE_BINDINGS
            invariant
                i <= DEGREE_BINDINGS,
                held@ =~= Seq::new(i as nat, |j: int| false),
            decreases DEGREE_BINDINGS - i,
        {
            held.push(false);
            i = i + 1;
        }
        DegreeState { held }
    }

    /// One poll of the step controller with `keys` held.
    pub fn step(&mut self, keys: &Vec<Key>) -> (p: Poll)
        ensures
            p.quit == quit_keys(keys@),
            p.outputs@ == if quit_keys(keys@) {
                Seq::empty()
            } else {
                degree_outputs(old(self).held(), keys@, DEGREE_BINDINGS as nat)
            },
            final(self).held() == if quit_keys(keys@) {
                old(self).held()
            } else {
                held_after(keys@)
            },
    {
        proof {
            use_type_invariant(&*self);
        }
        let mut outputs: Vec<DriveOutput> = Vec::new();
        if wants_quit(keys) {
            return Poll { quit: true, outputs };
        }
        let ghost old_held = self.held@;
        let mut held: Vec<bool> = Vec::new();
        let mut i: usize = 0;
        while i < DEGREE_BINDINGS
            invariant
                i <= DEGREE_BINDINGS,
                self.held@ == old_held,
                old_held.len() == DEGREE_BINDINGS,
                held@.len() == i,
                forall|j: int| 0 <= j < i ==> held@[j] == keys@.contains(binding_of(j).0),
                outputs@ == degree_outputs(old_held, keys@, i as nat),
            decreases DEGREE_BINDINGS - i,
        {
            let (k, cmd, amount) = binding(i);
            if holds(keys, k) {
                if !self.held[i] {
                    outputs.push(DriveOutput::SendAmount(cmd, amount));
                }
                held.push(true);
            } else {
                held.push(false);
            }
            assert(outputs@ =~= degree_outputs(old_held, keys@, (i + 1) as nat));
            i = i + 1;
        }
        assert(held@ =~= held_after(keys@));
        self.held = held;
        Poll { quit: false, outputs }
    }
}

proof fn lemma_degree_quiet_prefix(keys: Seq<Key>, n: nat)
    requires
        n <= DEGREE_BINDINGS,
    ensures
        degree_outputs(held_after(keys), keys, n) == Seq::<DriveOutput>::empty(),
    decreases n,
{
    if n > 0 {
        lemma_degree_quiet_prefix(keys, (n - 1) as nat);
        assert(degree_outputs(held_after(keys), keys, n) =~= Seq::<DriveOutput>::empty());
    }
}

/// Polling again with the same keys held sends nothing: each binding fires
/// once per press.
pub proof fn lemma_degree_repeat_is_quiet(keys: Seq<Key>)
    ensures
        degree_outputs(held_after(keys), keys, DEGREE_BINDINGS as nat) == Seq::<
            DriveOutput,
        >::empty(),
{
    lemma_degree_quiet_prefix(keys, DEGREE_BINDINGS as nat);
}

/// A bound key newly pressed, alone, sends its command with its amount.
pub proof fn lemma_degree_single_press(held: Seq<bool>, i: int)
    requires
        held.len() == DEGREE_BINDINGS,
        0 <= i < DEGREE_BINDINGS,
        !held[i],
    ensures
        degree_outputs(held, seq![binding_of(i).0], DEGREE_BINDINGS as nat) == seq![
            DriveOutput::SendAmount(binding_of(i).1, binding_of(i).2),
        ],
{
    let keys = seq![binding_of(i).0];
    assert forall|j: int| 0 <= j < DEGREE_BINDINGS && j != i implies !keys.contains(
        binding_of(j).0,
    ) by {
        if keys.contains(binding_of(j).0) {
            assert(keys[0] == binding_of(j).0);
        }
    }
    assert(keys.contains(binding_of(i).0)) by {
        assert(keys[0] == binding_of(i).0);
    }
    lemma_degree_single_prefix(held, i, DEGREE_BINDINGS as nat);
}

proof fn lemma_degree_single_prefix(held: Seq<bool>, i: int, n: nat)
    requires
        held.len() == DEGREE_BINDINGS,
        0 <= i < DEGREE_BINDINGS,
        n <= DEGREE_BINDINGS,
        !held[i],
        seq![binding_of(i).0].contains(binding_of(i).0),
        forall|j: int|
            0 <= j < DEGREE_BINDINGS && j != i ==> !seq![binding_of(i).0].contains(binding_of(j).0),
    ensures
        degree_outputs(held, seq![binding_of(i).0], n) == if i < n {
            seq![DriveOutput::SendAmount(binding_of(i).1, binding_of(i).2)]
        } else {
            Seq::<DriveOutput>::empty()
        },
    decreases n,
{
    if n > 0 {
        lemma_degree_single_prefix(held, i, (n - 1) as nat);
        let keys = seq![binding_of(i).0];
        assert(degree_outputs(held, keys, n) =~= if i < n {
            seq![DriveOutput::SendAmount(binding_of(i).1, binding_of(i).2)]
        } else {
            Seq::<DriveOutput>::empty()
        });
    }
}

proof fn lemma_degree_fires_prefix(held: Seq<bool>, keys: Seq<Key>, i: int, n: nat)
    requires
        held.len() == DEGREE_BINDINGS,
        0 <= i < n <= DEGREE_BINDINGS,
        !held[i],
        keys.contains(binding_of(i).0),
    ensures
        degree_outputs(held, keys, n).contains(
            DriveOutput::SendAmount(binding_of(i).1, binding_of(i).2),
        ),
    decreases n,
{
    let prev = degree_outputs(held, keys, (n - 1) as nat);
    let out = degree_outputs(held, keys, n);
    if i < n - 1 {
        lemma_degree_fires_prefix(held, keys, i, (n - 1) as nat);
        let j = choose|j: int|
            0 <= j < prev.len() && prev[j] == DriveOutput::SendAmount(binding_of(i).1, binding_of(i).2);
        assert(out[j] == prev[j]);
    } else {
        assert(out[prev.len() as int] == DriveOutput::SendAmount(binding_of(i).1, binding_of(i).2));
    }
}

/// A key released at one poll is not remembered as held, so pressing any
/// bound key after a poll without it always sends that key's command with
/// its amount (G: left 30, H: right 30, arrows: 15 degrees or 6 inches,
/// X C V B N M: forward 1, 2, 4, 6, 10, 14).
pub proof fn lemma_degree_press_after_release(k1: Seq<Key>, k2: Seq<Key>, i: int)
    requires
        0 <= i < DEGREE_BINDINGS,
        !k1.contains(binding_of(i).0),
        k2.contains(binding_of(i).0),
    ensures
        !held_after(k1)[i],
        degree_outputs(held_after(k1), k2, DEGREE_BINDINGS as nat).contains(
            DriveOutput::SendAmount(binding_of(i).1, binding_of(i).2),
        ),
{
    lemma_degree_fires_prefix(held_after(k1), k2, i, DEGREE_BINDINGS as nat);
}

/// The bindings, in the order the keys are looked at.
pub proof fn lemma_degree_bindings()
    ensures
        binding_of(0) == (Key::G, TURN_LEFT_COMMAND, 30u8),
        binding_of(1) == (Key::H, TURN_RIGHT_COMMAND, 30u8),
        binding_of(2) == (Key::Left, TURN_LEFT_COMMAND, 15u8),
        binding_of(3) == (Key::Right, TURN_RIGHT_COMMAND, 15u8),
        binding_of(4) == (Key::Up, FORWARD_COMMAND, 6u8),
        binding_of(5) == (Key::Down, BACKWARD_COMMAND, 6u8),
        binding_of(6) == (Key::X, FORWARD_COMMAND, 1u8),
        binding_of(7) == (Key::C, FORWARD_COMMAND, 2u8),
        binding_of(8) == (Key::V, FORWARD_COMMAND, 4u8),
        binding_of(9) == (Key::B, FORWARD_COMMAND, 6u8),
        binding_of(10) == (Key::N, FORWARD_COMMAND, 10u8),
        binding_of(11) == (Key::M, FORWARD_COMMAND, 14u8),
{
}

} // verus!
