//! Keyboard and gamepad input state with pyxel-style `btn` / `btnp` queries.
use vstd::prelude::*;

verus! {

/// Keys the input state tracks.
#[derive(Debug, Clone, Copy, PartialEq, Eq, Hash, Structural)]
pub enum Key {
    Up,
    Down,
    Left,
    Right,
    W,
    A,
    S,
    D,
    GamepadDpadUp,
    GamepadDpadDown,
    GamepadDpadLeft,
    GamepadDpadRight,
    GamepadButtonA,
    GamepadButtonB,
    GamepadButtonX,
    GamepadButtonY,
    Space,
    Enter,
    Escape,
}

/// Number of keys.
pub open spec fn key_count() -> nat {
    19
}

/// Slot of each key in the state's tables.
pub open spec fn key_index(k: Key) -> nat {
    match k {
        Key::Up => 0,
        Key::Down => 1,
        Key::Left => 2,
        Key::Right => 3,
        Key::W => 4,
        Key::A => 5,
        Key::S => 6,
        Key::D => 7,
        Key::GamepadDpadUp => 8,
        Key::GamepadDpadDown => 9,
        Key::GamepadDpadLeft => 10,
        Key::GamepadDpadRight => 11,
        Key::GamepadButtonA => 12,
        Key::GamepadButtonB => 13,
        Key::GamepadButtonX => 14,
        Key::GamepadButtonY => 15,
        Key::Space => 16,
        Key::Enter => 17,
        Key::Escape => 18,
    }
}

fn key_slot(k: Key) -> (i: usize)
    ensures
        i == key_index(k),
{
    match k {
        Key::Up => 0,
        Key::Down => 1,
        Key::Left => 2,
        Key::Right => 3,
        Key::W => 4,
        Key::A => 5,
        Key::S => 6,
        Key::D => 7,
        Key::GamepadDpadUp => 8,
        Key::GamepadDpadDown => 9,
        Key::GamepadDpadLeft => 10,
        Key::GamepadDpadRight => 11,
        Key::GamepadButtonA => 12,
        Key::GamepadButtonB => 13,
        Key::GamepadButtonX => 14,
        Key::GamepadButtonY => 15,
        Key::Space => 16,
        Key::Enter => 17,
        Key::Escape => 18,
    }
}

/// Two keys share a slot only if they are the same key.
pub proof fn lemma_key_index_injective(a: Key, b: Key)
    ensures
        key_index(a) == key_index(b) ==> a == b,
        key_index(a) < key_count(),
{
}

/// Input state: the keys held down, and the keys newly pressed since the
/// last frame update.
pub struct InputState {
    pressed: Vec<bool>,
    released: Vec<bool>,
}

fn no_keys() -> (v: Vec<bool>)
    ensures
        v@.len() == key_count(),
        forall|i: int| 0 <= i < key_count() ==> !(#[trigger] v@[i]),
{
    let mut v: Vec<bool> = Vec::new();
    let mut i: usize = 0;
    while i < 19
        invariant
            i <= 19,
            v@.len() == i,
            forall|j: int| 0 <= j < i ==> !(#[trigger] v@[j]),
        decreases 19 - i,
    {
        v.push(false);
        i = i + 1;
    }
    v
}

impl InputState {
    #[verifier::type_invariant]
    spec fn tables_sized(&self) -> bool {
        self.pressed@.len() == key_count() && self.released@.len() == key_count()
    }

    /// Keys currently held down.
    pub closed spec fn held(&self) -> Set<Key> {
        Set::new(|k: Key| self.pressed@[key_index(k) as int])
    }

    /// Keys pressed since the last frame update.
    pub closed spec fn fresh(&self) -> Set<Key> {
        Set::new(|k: Key| self.released@[key_index(k) as int])
    }

    /// No key held, none fresh.
    pub fn new() -> (s: InputState)
        ensures
            s.held() == Set::<Key>::empty(),
            s.fresh() == Set::<Key>::empty(),
    {
        let s = InputState { pressed: no_keys(), released: no_keys() };
        assert(s.held() =~= Set::<Key>::empty());
        assert(s.fresh() =~= Set::<Key>::empty());
        s
    }

    /// `btn(key)`: the key is held down.
    pub fn btn(&self, key: Key) -> (b: bool)
        ensures
            b == self.held().contains(key),
    {
        proof { use_type_invariant(self); }
        self.pressed[key_slot(key)]
    }

    /// `btnp(key)`: the key was pressed since the last frame update.
    pub fn btnp(&self, key: Key) -> (b: bool)
        ensures
            b == self.fresh().contains(key),
    {
        proof { use_type_invariant(self); }
        self.released[key_slot(key)]
    }

    /// Start a new frame: no key is fresh any more.
    pub fn update_frame(&mut self)
        ensures
            final(self).held() == old(self).held(),
            final(self).fresh() == Set::<Key>::empty(),
    {
        proof { use_type_invariant(&*self); }
        let pressed = self.pressed.clone();
        assert(pressed@ =~= self.pressed@);
        *self = InputState { pressed, released: no_keys() };
        assert(self.held() =~= old(self).held());
        assert(self.fresh() =~= Set::<Key>::empty());
    }

    /// Register a key press: the key becomes held, and fresh unless it was
    /// already held.
    pub fn press_key(&mut self, key: Key)
        ensures
            final(self).held() == old(self).held().insert(key),
            final(self).fresh() == (if old(self).held().contains(key) {
                old(self).fresh()
            } else {
                old(self).fresh().insert(key)
            }),
    {
        proof { use_type_invariant(&*self); }
        let i = key_slot(key);
        let mut pressed = self.pressed.clone();
        let mut released = self.released.clone();
        assert(pressed@ =~= self.pressed@);
        assert(released@ =~= self.released@);
        if !pressed[i] {
            released.set(i, true);
        }
        pressed.set(i, true);
        *self = InputState { pressed, released };
        proof {
            assert forall|k: Key| #[trigger] self.held().contains(k) == old(self).held().insert(key).contains(k) by {
                lemma_key_index_injective(k, key);
            }
            assert(self.held() =~= old(self).held().insert(key));
            assert forall|k: Key| #[trigger] self.fresh().contains(k) == (if old(self).held().contains(key) {
                old(self).fresh()
            } else {
                old(self).fresh().insert(key)
            }).contains(k) by {
                lemma_key_index_injective(k, key);
            }
            assert(self.fresh() =~= (if old(self).held().contains(key) {
                old(self).fresh()
            } else {
                old(self).fresh().insert(key)
            }));
        }
    }

    /// Register a key release: the key is no longer held.
    pub fn release_key(&mut self, key: Key)
        ensures
            final(self).held() == old(self).held().remove(key),
            final(self).fresh() == old(self).fresh(),
    {
        proof { use_type_invariant(&*self); }
        let i = key_slot(key);
        let mut pressed = self.pressed.clone();
        let released = self.released.clone();
        assert(pressed@ =~= self.pressed@);
        assert(released@ =~= self.released@);
        pressed.set(i, false);
        *self = InputState { pressed, released };
        proof {
            assert forall|k: Key| #[trigger] self.held().contains(k) == old(self).held().remove(key).contains(k) by {
                lemma_key_index_injective(k, key);
            }
            assert(self.held() =~= old(self).held().remove(key));
            assert(self.fresh() =~= old(self).fresh());
        }
    }

    /// Forget every key: none held, none fresh.
    pub fn reset(&mut self)
        ensures
            final(self).held() == Set::<Key>::empty(),
            final(self).fresh() == Set::<Key>::empty(),
    {
        *self = InputState { pressed: no_keys(), released: no_keys() };
        assert(self.held() =~= Set::<Key>::empty());
        assert(self.fresh() =~= Set::<Key>::empty());
    }
}

/// A key is new only in the frame it was pressed: pressing a key that was
/// not held makes it held and new; the next frame update keeps it held but
/// no longer new; releasing it makes it not held.
pub proof fn law_press_frame_release(held: Set<Key>, fresh: Set<Key>, k: Key)
    requires
        !held.contains(k),
    ensures
        held.insert(k).contains(k),
        fresh.insert(k).contains(k),
        !Set::<Key>::empty().contains(k),
        !held.insert(k).remove(k).contains(k),
{
}

/// Pressing or releasing a key leaves every other key as it was.
pub proof fn law_keys_independent(held: Set<Key>, k: Key, other: Key)
    requires
        other != k,
    ensures
        held.insert(k).contains(other) == held.contains(other),
        held.remove(k).contains(other) == held.contains(other),
{
}

impl Default for InputState {
    fn default() -> (s: InputState)
        ensures
            s.held() == Set::<Key>::empty(),
            s.fresh() == Set::<Key>::empty(),
    {
        InputState::new()
    }
}

} // verus!
