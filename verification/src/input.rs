//! Keyboard state: which key codes are held down, driven by key events.

use vstd::prelude::*;
use vstd::string::StringExecFns;

verus! {

/// A key went up or down; the key is named by its code (such as `KeyW`).
#[derive(Debug)]
pub enum KeyEvent {
    Up(String),
    Down(String),
}

/// The set of held key codes after `event`.
pub open spec fn apply_event(pressed: Set<Seq<char>>, event: KeyEvent) -> Set<Seq<char>> {
    match event {
        KeyEvent::Up(code) => pressed.remove(code@),
        KeyEvent::Down(code) => pressed.insert(code@),
    }
}

/// The set of held key codes after `events`, applied in order.
pub open spec fn apply_events(pressed: Set<Seq<char>>, events: Seq<KeyEvent>) -> Set<Seq<char>>
    decreases events.len(),
{
    if events.len() == 0 {
        pressed
    } else {
        apply_event(apply_events(pressed, events.drop_last()), events.last())
    }
}

/// The key codes currently held down.
pub struct KeyState {
    pressed: Vec<String>,
}

impl View for KeyState {
    type V = Set<Seq<char>>;

    closed spec fn view(&self) -> Set<Seq<char>> {
        Set::new(|c: Seq<char>| exists|i: int| 0 <= i < self.pressed@.len() && (#[trigger] self.pressed@[i])@ == c)
    }
}

impl KeyState {
    /// No code is held twice.
    #[verifier::type_invariant]
    spec fn distinct(self) -> bool {
        forall|i: int, j: int|
            0 <= i < self.pressed@.len() && 0 <= j < self.pressed@.len() && i != j ==> (#[trigger] self.pressed@[i])@
                != (#[trigger] self.pressed@[j])@
    }

    /// No key is held.
    pub fn new() -> (r: KeyState)
        ensures
            r@ == Set::<Seq<char>>::empty(),
    {
        let r = KeyState { pressed: Vec::new() };
        assert(r@ =~= Set::<Seq<char>>::empty());
        r
    }

    /// Position of `code` among the held keys.
    fn find(&self, code: &String) -> (r: Option<usize>)
        ensures
            r matches Some(i) ==> i < self.pressed@.len() && self.pressed@[i as int]@ == code@,
            r is None ==> !self@.contains(code@),
    {
        let mut i: usize = 0;
        while i < self.pressed.len()
            invariant
                i <= self.pressed@.len(),
                forall|j: int| 0 <= j < i ==> (#[trigger] self.pressed@[j])@ != code@,
            decreases self.pressed@.len() - i,
        {
            if self.pressed[i] == *code {
                return Some(i);
            }
            i += 1;
        }
        None
    }

    /// Whether the key with this code is held.
    pub fn is_pressed(&self, code: &str) -> (r: bool)
        ensures
            r == self@.contains(code@),
    {
        let code = String::from_str(code);
        self.find(&code).is_some()
    }

    fn set_pressed_code(&mut self, code: String)
        ensures
            final(self)@ == old(self)@.insert(code@),
    {
        proof {
            use_type_invariant(&*self);
        }
        if self.find(&code).is_none() {
            let ghost before = self.pressed@;
            let mut pressed: Vec<String> = Vec::new();
            std::mem::swap(&mut pressed, &mut self.pressed);
            pressed.push(code);
            assert forall|i: int, j: int|
                0 <= i < pressed@.len() && 0 <= j < pressed@.len() && i != j implies (#[trigger] pressed@[i])@
                    != (#[trigger] pressed@[j])@ by {
                if i < before.len() && j < before.len() {
                    assert(pressed@[i] == before[i] && pressed@[j] == before[j]);
                } else if i < before.len() {
                    assert(pressed@[i] == before[i]);
                } else {
                    assert(pressed@[j] == before[j]);
                }
            }
            std::mem::swap(&mut pressed, &mut self.pressed);
            assert(self@ =~= old(self)@.insert(code@)) by {
                assert(self.pressed@[before.len() as int]@ == code@);
                assert forall|c: Seq<char>| #[trigger] old(self)@.contains(c) implies self@.contains(c) by {
                    let i = choose|i: int| 0 <= i < before.len() && (#[trigger] before[i])@ == c;
                    assert(self.pressed@[i] == before[i]);
                }
            }
        } else {
            assert(self@ =~= old(self)@.insert(code@));
        }
    }

    fn set_released_code(&mut self, code: &String)
        ensures
            final(self)@ == old(self)@.remove(code@),
    {
        proof {
            use_type_invariant(&*self);
        }
        match self.find(code) {
            Some(i) => {
                let ghost before = self.pressed@;
                let mut pressed: Vec<String> = Vec::new();
                std::mem::swap(&mut pressed, &mut self.pressed);
                pressed.remove(i);
                assert forall|a: int, b: int|
                    0 <= a < pressed@.len() && 0 <= b < pressed@.len() && a != b implies (#[trigger] pressed@[a])@
                        != (#[trigger] pressed@[b])@ by {
                    let a0 = if a < i { a } else { a + 1 };
                    let b0 = if b < i { b } else { b + 1 };
                    assert(pressed@[a] == before[a0] && pressed@[b] == before[b0]);
                }
                std::mem::swap(&mut pressed, &mut self.pressed);
                assert(self@ =~= old(self)@.remove(code@)) by {
                    assert forall|c: Seq<char>| #[trigger] self@.contains(c) implies old(self)@.remove(code@).contains(c) by {
                        let k = choose|k: int| 0 <= k < self.pressed@.len() && (#[trigger] self.pressed@[k])@ == c;
                        if k < i {
                            assert(self.pressed@[k] == before[k]);
                        } else {
                            assert(self.pressed@[k] == before[k + 1]);
                        }
                    }
                    assert forall|c: Seq<char>| #[trigger] old(self)@.remove(code@).contains(c) implies self@.contains(c) by {
                        let k = choose|k: int| 0 <= k < before.len() && (#[trigger] before[k])@ == c;
                        if k < i {
                            assert(self.pressed@[k] == before[k]);
                        } else {
                            assert(k != i);
                            assert(self.pressed@[k - 1] == before[k]);
                        }
                    }
                }
            },
            None => {
                assert(self@ =~= old(self)@.remove(code@));
            },
        }
    }

    /// Marks the key with this code as held.
    pub fn set_pressed(&mut self, code: &str)
        ensures
            final(self)@ == old(self)@.insert(code@),
    {
        self.set_pressed_code(String::from_str(code));
    }

    /// Marks the key with this code as no longer held.
    pub fn set_released(&mut self, code: &str)
        ensures
            final(self)@ == old(self)@.remove(code@),
    {
        let code = String::from_str(code);
        self.set_released_code(&code);
    }

    /// Applies one key event.
    pub fn apply(&mut self, event: KeyEvent)
        ensures
            final(self)@ == apply_event(old(self)@, event),
    {
        match event {
            KeyEvent::Up(code) => self.set_released_code(&code),
            KeyEvent::Down(code) => self.set_pressed_code(code),
        }
    }

    /// Applies the events in the order in which they arrived.
    pub fn process_events(&mut self, events: Vec<KeyEvent>)
        ensures
            final(self)@ == apply_events(old(self)@, events@),
    {
        let ghost all = events@;
        let mut rest = events;
        let ghost mut done: int = 0;
        while rest.len() > 0
            invariant
                0 <= done <= all.len(),
                rest@ == all.skip(done),
                self@ == apply_events(old(self)@, all.take(done)),
            decreases rest@.len(),
        {
            let event = rest.remove(0);
            proof {
                assert(event == all[done]);
                assert(all.take(done + 1).drop_last() =~= all.take(done));
            }
            self.apply(event);
            proof {
                done = done + 1;
                assert(rest@ =~= all.skip(done));
            }
        }
        assert(all.take(done) =~= all);
    }
}


/// A key reads as held right after it goes down, and as not held right
/// after it goes up; no other key changes.
pub proof fn law_key_event_read_back(pressed: Set<Seq<char>>, code: String, other: Seq<char>)
    ensures
        apply_event(pressed, KeyEvent::Down(code)).contains(code@),
        !apply_event(pressed, KeyEvent::Up(code)).contains(code@),
        other != code@ ==> apply_event(pressed, KeyEvent::Down(code)).contains(other) == pressed.contains(other),
        other != code@ ==> apply_event(pressed, KeyEvent::Up(code)).contains(other) == pressed.contains(other),
{
}

/// Pressing a key that is already held changes nothing, and a key that
/// goes down and up again leaves the keys as they were without it.
pub proof fn law_key_event_idempotent(pressed: Set<Seq<char>>, code: String)
    ensures
        pressed.contains(code@) ==> apply_event(pressed, KeyEvent::Down(code)) == pressed,
        apply_event(apply_event(pressed, KeyEvent::Down(code)), KeyEvent::Up(code)) == pressed.remove(code@),
{
    assert(pressed.contains(code@) ==> pressed.insert(code@) =~= pressed);
    assert(pressed.insert(code@).remove(code@) =~= pressed.remove(code@));
}

/// The state after a sequence of events is the state after its last event,
/// applied to the state after the others; for a single event it is that event's.
pub proof fn law_events_in_order(pressed: Set<Seq<char>>, events: Seq<KeyEvent>, event: KeyEvent)
    ensures
        apply_events(pressed, events.push(event)) == apply_event(apply_events(pressed, events), event),
        apply_events(pressed, seq![event]) == apply_event(pressed, event),
{
    assert(events.push(event).drop_last() =~= events);
    assert(seq![event].drop_last() =~= Seq::<KeyEvent>::empty());
    assert(apply_events(pressed, Seq::<KeyEvent>::empty()) == pressed);
}

} // verus!
