//! Scenes of the penguin sledding games and the oscillator wave shapes of
//! their sound definitions.
use vstd::prelude::*;

verus! {

/// Scenes of the browser version of the sledding game.
#[derive(Clone, Copy, PartialEq, Eq, Structural)]
pub enum PenPenScene {
    Title,
    Playing,
    LevelClear,
    GameOver,
}

/// Scenes of the stand-alone sledding game, which also has a launcher.
#[derive(Clone, Copy, PartialEq, Eq, Structural)]
pub enum PenPenSceneStandalone {
    Title,
    Playing,
    LevelClear,
    GameOver,
    Launcher,
}

#[derive(Clone, Copy)]
pub enum WaveType {
    Sine,
    Square,
    Sawtooth,
    Triangle,
}

impl WaveType {
    /// The Web Audio name of the wave shape.
    pub fn as_str(&self) -> (r: &'static str)
        ensures
            *self matches WaveType::Sine ==> r@ == "sine"@,
            *self matches WaveType::Square ==> r@ == "square"@,
            *self matches WaveType::Sawtooth ==> r@ == "sawtooth"@,
            *self matches WaveType::Triangle ==> r@ == "triangle"@,
    {
        match self {
            WaveType::Sine => "sine",
            WaveType::Square => "square",
            WaveType::Sawtooth => "sawtooth",
            WaveType::Triangle => "triangle",
        }
    }
}

} // verus!
