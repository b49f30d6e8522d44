//! How the game engine starts: a drawing mode picked by name, and the
//! canvas it draws on.
use vstd::prelude::*;
use vstd::string::StringSliceAdditionalSpecFns;

verus! {

/// The engine's drawing mode.
#[derive(Clone, Copy, Debug, PartialEq, Eq, Structural)]
pub enum EngineMode {
    Mode3D,
    Mode2D,
    Console,
}

/// An ASCII letter in lower case; other bytes as they are.
pub open spec fn lower(b: u8) -> u8 {
    if 65 <= b <= 90 {
        (b + 32) as u8
    } else {
        b
    }
}

/// `bytes` spell `word` (given in lower case), ignoring ASCII case.
pub open spec fn spells(bytes: Seq<u8>, word: Seq<u8>) -> bool {
    bytes.len() == word.len() && forall|i: int| 0 <= i < bytes.len() ==> #[trigger] lower(bytes[i]) == word[i]
}

/// "3d", "2d" and "console" as bytes.
pub open spec fn word_3d() -> Seq<u8> {
    seq![51u8, 100u8]
}

pub open spec fn word_2d() -> Seq<u8> {
    seq![50u8, 100u8]
}

pub open spec fn word_console() -> Seq<u8> {
    seq![99u8, 111u8, 110u8, 115u8, 111u8, 108u8, 101u8]
}

/// The mode named by `bytes`: "3d", "2d" or "console" in any case; any
/// other name falls back to 3D.
pub open spec fn mode_named(bytes: Seq<u8>) -> EngineMode {
    if spells(bytes, word_3d()) {
        EngineMode::Mode3D
    } else if spells(bytes, word_2d()) {
        EngineMode::Mode2D
    } else if spells(bytes, word_console()) {
        EngineMode::Console
    } else {
        EngineMode::Mode3D
    }
}

fn lower_byte(b: u8) -> (r: u8)
    ensures
        r == lower(b),
{
    if 65 <= b && b <= 90 {
        b + 32
    } else {
        b
    }
}

fn spells_word(bytes: &[u8], word: &[u8]) -> (r: bool)
    ensures
        r == spells(bytes@, word@),
{
    if bytes.len() != word.len() {
        return false;
    }
    let mut i: usize = 0;
    while i < bytes.len()
        invariant
            bytes@.len() == word@.len(),
            i <= bytes@.len(),
            forall|k: int| 0 <= k < i ==> #[trigger] lower(bytes@[k]) == word@[k],
        decreases bytes@.len() - i,
    {
        if lower_byte(bytes[i]) != word[i] {
            return false;
        }
        i = i + 1;
    }
    true
}

impl EngineMode {
    /// The mode named `s` (see `mode_named`): the name is compared without
    /// regard to the case of its letters.
    pub fn from_str(s: &str) -> (r: Self)
        ensures
            r == mode_named(s.spec_bytes()),
    {
        let bytes = s.as_bytes();
        let w3: [u8; 2] = [51, 100];
        let w2: [u8; 2] = [50, 100];
        let wc: [u8; 7] = [99, 111, 110, 115, 111, 108, 101];
        proof {
            assert(w3@ =~= word_3d());
            assert(w2@ =~= word_2d());
            assert(wc@ =~= word_console());
        }
        if spells_word(bytes, &w3) {
            EngineMode::Mode3D
        } else if spells_word(bytes, &w2) {
            EngineMode::Mode2D
        } else if spells_word(bytes, &wc) {
            EngineMode::Console
        } else {
            EngineMode::Mode3D
        }
    }
}

/// The engine as started: its mode and the canvas it draws on.
pub struct RustGamesEngine {
    pub mode: EngineMode,
    pub canvas_id: String,
}

impl RustGamesEngine {
    /// Starts the engine in the mode named `mode` (see `EngineMode::from_str`)
    /// on canvas `canvas_id`.
    pub fn init(mode: &str, canvas_id: &str) -> (e: Self)
        ensures
            e.mode == mode_named(mode.spec_bytes()),
            e.canvas_id@ == canvas_id@,
    {
        RustGamesEngine { mode: EngineMode::from_str(mode), canvas_id: canvas_id.to_owned() }
    }

    pub fn is_3d(&self) -> (r: bool)
        ensures
            r == (self.mode == EngineMode::Mode3D),
    {
        self.mode == EngineMode::Mode3D
    }

    pub fn is_2d(&self) -> (r: bool)
        ensures
            r == (self.mode == EngineMode::Mode2D),
    {
        self.mode == EngineMode::Mode2D
    }
}

} // verus!
