//! Player actions of the maze game and the desktop engine's key state.
use vstd::prelude::*;

verus! {

#[derive(Debug, Clone, Copy, PartialEq, Eq, Structural)]
pub enum Action {
    Forward,
    TurnLeft,
    TurnRight,
    Backward,
}

pub open spec fn action_number(a: Action) -> i32 {
    match a {
        Action::Forward => 0,
        Action::TurnLeft => 1,
        Action::TurnRight => 2,
        Action::Backward => 3,
    }
}

impl Action {
    /// The action with number `n` (0 forward, 1 turn left, 2 turn right,
    /// 3 backward); none for any other number.
    pub fn from_i32(n: i32) -> (r: Option<Self>)
        ensures
            r is Some <==> 0 <= n <= 3,
            r matches Some(a) ==> action_number(a) == n,
    {
        match n {
            0 => Some(Self::Forward),
            1 => Some(Self::TurnLeft),
            2 => Some(Self::TurnRight),
            3 => Some(Self::Backward),
            _ => None,
        }
    }
}

/// Numbering an action and reading the number back gives the action.
pub proof fn lemma_action_roundtrip(a: Action, b: Action)
    requires
        action_number(a) == action_number(b),
    ensures
        a == b,
{
}

#[derive(Clone, Copy, Debug, Default)]
pub struct KeyboardState {
    pub w: bool,
    pub a: bool,
    pub s: bool,
    pub d: bool,
    pub space: bool,
    pub escape: bool,
    pub enter: bool,
}

#[derive(Clone, Copy, Debug)]
pub enum MouseButton {
    Left,
    Right,
    Middle,
}

#[derive(Clone, Copy, Debug)]
pub enum Key {
    W,
    A,
    S,
    D,
    Space,
    Escape,
    Enter,
}

impl KeyboardState {
    /// Whether `key` is held.
    pub open spec fn held(self, key: Key) -> bool {
        match key {
            Key::W => self.w,
            Key::A => self.a,
            Key::S => self.s,
            Key::D => self.d,
            Key::Space => self.space,
            Key::Escape => self.escape,
            Key::Enter => self.enter,
        }
    }

    /// Records whether `key` is pressed; the other keys keep their state.
    pub fn set_key(&mut self, key: Key, pressed: bool)
        ensures
            final(self).held(key) == pressed,
            forall|k: Key| k != key ==> final(self).held(k) == old(self).held(k),
    {
        match key {
            Key::W => self.w = pressed,
            Key::A => self.a = pressed,
            Key::S => self.s = pressed,
            Key::D => self.d = pressed,
            Key::Space => self.space = pressed,
            Key::Escape => self.escape = pressed,
            Key::Enter => self.enter = pressed,
        }
    }
}

} // verus!
