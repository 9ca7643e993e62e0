//! Which movements of a camera rig the held keys ask for.

use vstd::prelude::*;
use vstd::string::StringExecFns;

use crate::input::KeyState;

verus! {

/// One step of movement or rotation of the rig.
#[derive(Debug, Clone, Copy, PartialEq, Eq, Structural)]
pub enum Motion {
    MoveForwards,
    MoveBackwards,
    MoveLeft,
    MoveRight,
    MoveUp,
    MoveDown,
    TurnRight,
    TurnLeft,
    LookUp,
    LookDown,
}

/// The key code bound to each motion; `None` leaves a motion unbound.
pub struct KeyBindings {
    pub key_move_forwards: Option<String>,
    pub key_move_backwards: Option<String>,
    pub key_move_left: Option<String>,
    pub key_move_right: Option<String>,
    pub key_move_up: Option<String>,
    pub key_move_down: Option<String>,
    pub key_turn_left: Option<String>,
    pub key_turn_right: Option<String>,
    pub key_look_up: Option<String>,
    pub key_look_down: Option<String>,
}

/// The key is bound and held.
pub open spec fn key_held(key: Option<String>, pressed: Set<Seq<char>>) -> bool {
    key matches Some(k) && pressed.contains(k@)
}

/// `motion` alone when `key` is held, else nothing.
pub open spec fn motion_if_held(key: Option<String>, pressed: Set<Seq<char>>, motion: Motion) -> Seq<Motion> {
    if key_held(key, pressed) {
        seq![motion]
    } else {
        Seq::empty()
    }
}

/// The motions asked for, in the order in which the rig applies them:
/// the six moves, then turning right and left, then looking up and down.
pub open spec fn active_motions(b: KeyBindings, pressed: Set<Seq<char>>) -> Seq<Motion> {
    motion_if_held(b.key_move_forwards, pressed, Motion::MoveForwards)
        + motion_if_held(b.key_move_backwards, pressed, Motion::MoveBackwards)
        + motion_if_held(b.key_move_left, pressed, Motion::MoveLeft)
        + motion_if_held(b.key_move_right, pressed, Motion::MoveRight)
        + motion_if_held(b.key_move_up, pressed, Motion::MoveUp)
        + motion_if_held(b.key_move_down, pressed, Motion::MoveDown)
        + motion_if_held(b.key_turn_right, pressed, Motion::TurnRight)
        + motion_if_held(b.key_turn_left, pressed, Motion::TurnLeft)
        + motion_if_held(b.key_look_up, pressed, Motion::LookUp)
        + motion_if_held(b.key_look_down, pressed, Motion::LookDown)
}

/// `key` is `Some` of a string whose characters are `text`.
pub open spec fn bound_to(key: Option<String>, text: Seq<char>) -> bool {
    key matches Some(k) && k@ == text
}

impl Default for KeyBindings {
    /// W/S forwards and backwards, A/D left and right, R/F up and down,
    /// Q/E turn left and right, T/G look up and down.
    fn default() -> (r: Self)
        ensures
            bound_to(r.key_move_forwards, "KeyW"@),
            bound_to(r.key_move_backwards, "KeyS"@),
            bound_to(r.key_move_left, "KeyA"@),
            bound_to(r.key_move_right, "KeyD"@),
            bound_to(r.key_move_up, "KeyR"@),
            bound_to(r.key_move_down, "KeyF"@),
            bound_to(r.key_turn_left, "KeyQ"@),
            bound_to(r.key_turn_right, "KeyE"@),
            bound_to(r.key_look_up, "KeyT"@),
            bound_to(r.key_look_down, "KeyG"@),
    {
        KeyBindings {
            key_move_forwards: Some(String::from_str("KeyW")),
            key_move_backwards: Some(String::from_str("KeyS")),
            key_move_left: Some(String::from_str("KeyA")),
            key_move_right: Some(String::from_str("KeyD")),
            key_move_up: Some(String::from_str("KeyR")),
            key_move_down: Some(String::from_str("KeyF")),
            key_turn_left: Some(String::from_str("KeyQ")),
            key_turn_right: Some(String::from_str("KeyE")),
            key_look_up: Some(String::from_str("KeyT")),
            key_look_down: Some(String::from_str("KeyG")),
        }
    }
}

impl KeyBindings {
    /// Whether `key` is bound and its key is held.
    pub fn is_key_pressed(key: &Option<String>, key_state: &KeyState) -> (r: bool)
        ensures
            r == key_held(*key, key_state@),
    {
        match key {
            Some(k) => key_state.is_pressed(k.as_str()),
            None => false,
        }
    }

    fn push_if_held(motions: &mut Vec<Motion>, key: &Option<String>, key_state: &KeyState, motion: Motion)
        ensures
            final(motions)@ == old(motions)@ + motion_if_held(*key, key_state@, motion),
    {
        if Self::is_key_pressed(key, key_state) {
            motions.push(motion);
            assert(final(motions)@ =~= old(motions)@ + seq![motion]);
        } else {
            assert(final(motions)@ =~= old(motions)@ + Seq::<Motion>::empty());
        }
    }

    /// The motions that the held keys ask for, in the order of application.
    pub fn motions(&self, key_state: &KeyState) -> (r: Vec<Motion>)
        ensures
            r@ == active_motions(*self, key_state@),
    {
        let mut motions: Vec<Motion> = Vec::new();
        Self::push_if_held(&mut motions, &self.key_move_forwards, key_state, Motion::MoveForwards);
        Self::push_if_held(&mut motions, &self.key_move_backwards, key_state, Motion::MoveBackwards);
        Self::push_if_held(&mut motions, &self.key_move_left, key_state, Motion::MoveLeft);
        Self::push_if_held(&mut motions, &self.key_move_right, key_state, Motion::MoveRight);
        Self::push_if_held(&mut motions, &self.key_move_up, key_state, Motion::MoveUp);
        Self::push_if_held(&mut motions, &self.key_move_down, key_state, Motion::MoveDown);
        Self::push_if_held(&mut motions, &self.key_turn_right, key_state, Motion::TurnRight);
        Self::push_if_held(&mut motions, &self.key_turn_left, key_state, Motion::TurnLeft);
        Self::push_if_held(&mut motions, &self.key_look_up, key_state, Motion::LookUp);
        Self::push_if_held(&mut motions, &self.key_look_down, key_state, Motion::LookDown);
        assert(motions@ =~= active_motions(*self, key_state@));
        motions
    }
}

/// Each motion is asked for exactly when the key bound to it is held: the
/// forwards key moves forwards, the left key moves left, the right key
/// moves right, and so on for every binding.
pub proof fn law_bindings_select_motions(b: KeyBindings, pressed: Set<Seq<char>>)
    ensures
        active_motions(b, pressed).contains(Motion::MoveForwards) <==> key_held(b.key_move_forwards, pressed),
        active_motions(b, pressed).contains(Motion::MoveBackwards) <==> key_held(b.key_move_backwards, pressed),
        active_motions(b, pressed).contains(Motion::MoveLeft) <==> key_held(b.key_move_left, pressed),
        active_motions(b, pressed).contains(Motion::MoveRight) <==> key_held(b.key_move_right, pressed),
        active_motions(b, pressed).contains(Motion::MoveUp) <==> key_held(b.key_move_up, pressed),
        active_motions(b, pressed).contains(Motion::MoveDown) <==> key_held(b.key_move_down, pressed),
        active_motions(b, pressed).contains(Motion::TurnRight) <==> key_held(b.key_turn_right, pressed),
        active_motions(b, pressed).contains(Motion::TurnLeft) <==> key_held(b.key_turn_left, pressed),
        active_motions(b, pressed).contains(Motion::LookUp) <==> key_held(b.key_look_up, pressed),
        active_motions(b, pressed).contains(Motion::LookDown) <==> key_held(b.key_look_down, pressed),
{
    broadcast use vstd::seq_lib::lemma_seq_concat_contains_all_elements;

    assert forall|key: Option<String>, m: Motion, x: Motion| #[trigger] motion_if_held(key, pressed, m).contains(x)
        <==> (key_held(key, pressed) && m == x) by {
        if key_held(key, pressed) {
            assert(motion_if_held(key, pressed, m)[0] == m);
        } else {
            assert(motion_if_held(key, pressed, m) =~= Seq::<Motion>::empty());
        }
    }
}

} // verus!
