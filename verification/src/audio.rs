//! Sound cues of the maze game: the game raises one event per frame and the
//! page reads it back once.
use vstd::prelude::*;

verus! {

#[derive(Debug, Clone, Copy, PartialEq, Eq, Structural)]
pub enum AudioEvent {
    NoEvent,
    Step,
    WallHit,
    LevelClear,
    GoalNear,
    EnemyNear,
    GameOver,
}

impl AudioEvent {
    /// The event's number as the page knows it (0 for none, then 1 to 6 in
    /// declaration order).
    pub fn code(self) -> (r: u8)
        ensures
            r == event_code(self),
    {
        match self {
            AudioEvent::NoEvent => 0,
            AudioEvent::Step => 1,
            AudioEvent::WallHit => 2,
            AudioEvent::LevelClear => 3,
            AudioEvent::GoalNear => 4,
            AudioEvent::EnemyNear => 5,
            AudioEvent::GameOver => 6,
        }
    }
}

pub open spec fn event_code(e: AudioEvent) -> u8 {
    match e {
        AudioEvent::NoEvent => 0,
        AudioEvent::Step => 1,
        AudioEvent::WallHit => 2,
        AudioEvent::LevelClear => 3,
        AudioEvent::GoalNear => 4,
        AudioEvent::EnemyNear => 5,
        AudioEvent::GameOver => 6,
    }
}

pub struct AudioState {
    pub event: AudioEvent,
    /// Which foot the next step sound is for; flips on every step.
    pub step_parity: bool,
}

impl AudioState {
    /// The state after `trigger(ev)`.
    pub open spec fn triggered(self, ev: AudioEvent) -> AudioState {
        AudioState {
            event: ev,
            step_parity: if ev == AudioEvent::Step {
                !self.step_parity
            } else {
                self.step_parity
            },
        }
    }

    /// The state after `consume()`.
    pub open spec fn consumed(self) -> AudioState {
        AudioState { event: AudioEvent::NoEvent, step_parity: self.step_parity }
    }

    pub fn new() -> (r: Self)
        ensures
            r.event == AudioEvent::NoEvent,
            !r.step_parity,
    {
        Self { event: AudioEvent::NoEvent, step_parity: false }
    }

    /// Records `ev` as the pending event; a step also flips the foot.
    pub fn trigger(&mut self, ev: AudioEvent)
        ensures
            *final(self) == old(self).triggered(ev),
    {
        self.event = ev;
        if ev == AudioEvent::Step {
            self.step_parity = !self.step_parity;
        }
    }

    /// Hands out the pending event and clears it.
    pub fn consume(&mut self) -> (r: AudioEvent)
        ensures
            r == old(self).event,
            *final(self) == old(self).consumed(),
    {
        let ev = self.event;
        self.event = AudioEvent::NoEvent;
        ev
    }
}

/// An event is handed out once: after `trigger(ev)` a `consume` yields `ev`,
/// and a second `consume` yields no event.
pub proof fn lemma_event_read_once(s: AudioState, ev: AudioEvent)
    ensures
        s.triggered(ev).event == ev,
        s.triggered(ev).consumed().event == AudioEvent::NoEvent,
        s.triggered(ev).consumed().step_parity == s.triggered(ev).step_parity,
{
}

/// Two steps bring the foot back: the parity flips once per step.
pub proof fn lemma_two_steps_same_foot(s: AudioState)
    ensures
        s.triggered(AudioEvent::Step).triggered(AudioEvent::Step).step_parity == s.step_parity,
        s.triggered(AudioEvent::Step).step_parity != s.step_parity,
{
}

} // verus!
