//! The MSX keyboard matrix: eleven rows of eight active-low key bits.
use vstd::prelude::*;

verus! {

pub struct Keyboard {
    pub matrix: [u8; 11],
}

/// Where a browser key code sits in the matrix: (row, bit).
pub open spec fn key_position(code: Seq<char>) -> Option<(usize, u8)> {
    if code == "Digit7"@ {
        Some((0, 7))
    } else if code == "Digit6"@ {
        Some((0, 6))
    } else if code == "Digit5"@ {
        Some((0, 5))
    } else if code == "Digit4"@ {
        Some((0, 4))
    } else if code == "Digit3"@ {
        Some((0, 3))
    } else if code == "Digit2"@ {
        Some((0, 2))
    } else if code == "Digit1"@ {
        Some((0, 1))
    } else if code == "Digit0"@ {
        Some((0, 0))
    } else if code == "Semicolon"@ {
        Some((1, 7))
    } else if code == "BracketLeft"@ {
        Some((1, 6))
    } else if code == "Backquote"@ {
        Some((1, 5))
    } else if code == "Backslash"@ {
        Some((1, 4))
    } else if code == "Equal"@ {
        Some((1, 3))
    } else if code == "BracketRight"@ {
        Some((1, 2))
    } else if code == "Minus"@ {
        Some((1, 1))
    } else if code == "KeyB"@ {
        Some((2, 7))
    } else if code == "KeyA"@ {
        Some((2, 6))
    } else if code == "Slash"@ {
        Some((2, 4))
    } else if code == "Period"@ {
        Some((2, 3))
    } else if code == "Comma"@ {
        Some((2, 2))
    } else if code == "Digit9"@ {
        Some((2, 0))
    } else if code == "Digit8"@ {
        Some((2, 1))
    } else if code == "KeyJ"@ {
        Some((3, 7))
    } else if code == "KeyI"@ {
        Some((3, 6))
    } else if code == "KeyH"@ {
        Some((3, 5))
    } else if code == "KeyG"@ {
        Some((3, 4))
    } else if code == "KeyF"@ {
        Some((3, 3))
    } else if code == "KeyE"@ {
        Some((3, 2))
    } else if code == "KeyD"@ {
        Some((3, 1))
    } else if code == "KeyC"@ {
        Some((3, 0))
    } else if code == "KeyR"@ {
        Some((4, 7))
    } else if code == "KeyQ"@ {
        Some((4, 6))
    } else if code == "KeyP"@ {
        Some((4, 5))
    } else if code == "KeyO"@ {
        Some((4, 4))
    } else if code == "KeyN"@ {
        Some((4, 3))
    } else if code == "KeyM"@ {
        Some((4, 2))
    } else if code == "KeyL"@ {
        Some((4, 1))
    } else if code == "KeyK"@ {
        Some((4, 0))
    } else if code == "KeyZ"@ {
        Some((5, 7))
    } else if code == "KeyY"@ {
        Some((5, 6))
    } else if code == "KeyX"@ {
        Some((5, 5))
    } else if code == "KeyW"@ {
        Some((5, 4))
    } else if code == "KeyV"@ {
        Some((5, 3))
    } else if code == "KeyU"@ {
        Some((5, 2))
    } else if code == "KeyT"@ {
        Some((5, 1))
    } else if code == "KeyS"@ {
        Some((5, 0))
    } else if code == "F3"@ {
        Some((6, 7))
    } else if code == "F2"@ {
        Some((6, 6))
    } else if code == "F1"@ {
        Some((6, 5))
    } else if code == "CapsLock"@ {
        Some((6, 3))
    } else if code == "ControlLeft"@ {
        Some((6, 1))
    } else if code == "ControlRight"@ {
        Some((6, 1))
    } else if code == "ShiftLeft"@ {
        Some((6, 0))
    } else if code == "ShiftRight"@ {
        Some((6, 0))
    } else if code == "Enter"@ {
        Some((7, 7))
    } else if code == "Backspace"@ {
        Some((7, 5))
    } else if code == "Tab"@ {
        Some((7, 3))
    } else if code == "Escape"@ {
        Some((7, 2))
    } else if code == "F5"@ {
        Some((7, 1))
    } else if code == "F4"@ {
        Some((7, 0))
    } else if code == "ArrowRight"@ {
        Some((8, 7))
    } else if code == "ArrowDown"@ {
        Some((8, 6))
    } else if code == "ArrowUp"@ {
        Some((8, 5))
    } else if code == "ArrowLeft"@ {
        Some((8, 4))
    } else if code == "Delete"@ {
        Some((8, 3))
    } else if code == "Insert"@ {
        Some((8, 2))
    } else if code == "Home"@ {
        Some((8, 1))
    } else if code == "Space"@ {
        Some((8, 0))
    } else if code == "Numpad9"@ {
        Some((9, 7))
    } else if code == "Numpad8"@ {
        Some((9, 6))
    } else if code == "Numpad7"@ {
        Some((9, 5))
    } else if code == "Numpad6"@ {
        Some((9, 4))
    } else if code == "Numpad5"@ {
        Some((9, 3))
    } else if code == "Numpad4"@ {
        Some((9, 2))
    } else if code == "Numpad3"@ {
        Some((9, 1))
    } else if code == "Numpad2"@ {
        Some((9, 0))
    } else if code == "Numpad1"@ {
        Some((10, 7))
    } else if code == "Numpad0"@ {
        Some((10, 6))
    } else if code == "NumpadDecimal"@ {
        Some((10, 5))
    } else if code == "NumpadAdd"@ {
        Some((10, 4))
    } else if code == "NumpadSubtract"@ {
        Some((10, 3))
    } else if code == "NumpadMultiply"@ {
        Some((10, 2))
    } else if code == "NumpadDivide"@ {
        Some((10, 1))
    } else {
        None
    }
}

/// `str` equality, by the characters.
fn str_eq(a: &str, b: &str) -> (r: bool)
    ensures
        r == (a@ == b@),
{
    a.to_owned() == b.to_owned()
}

pub fn map_key(code: &str) -> (r: Option<(usize, u8)>)
    ensures
        r == key_position(code@),
{
    if str_eq(code, "Digit7") {
        Some((0, 7))
    } else if str_eq(code, "Digit6") {
        Some((0, 6))
    } else if str_eq(code, "Digit5") {
        Some((0, 5))
    } else if str_eq(code, "Digit4") {
        Some((0, 4))
    } else if str_eq(code, "Digit3") {
        Some((0, 3))
    } else if str_eq(code, "Digit2") {
        Some((0, 2))
    } else if str_eq(code, "Digit1") {
        Some((0, 1))
    } else if str_eq(code, "Digit0") {
        Some((0, 0))
    } else if str_eq(code, "Semicolon") {
        Some((1, 7))
    } else if str_eq(code, "BracketLeft") {
        Some((1, 6))
    } else if str_eq(code, "Backquote") {
        Some((1, 5))
    } else if str_eq(code, "Backslash") {
        Some((1, 4))
    } else if str_eq(code, "Equal") {
        Some((1, 3))
    } else if str_eq(code, "BracketRight") {
        Some((1, 2))
    } else if str_eq(code, "Minus") {
        Some((1, 1))
    } else if str_eq(code, "KeyB") {
        Some((2, 7))
    } else if str_eq(code, "KeyA") {
        Some((2, 6))
    } else if str_eq(code, "Slash") {
        Some((2, 4))
    } else if str_eq(code, "Period") {
        Some((2, 3))
    } else if str_eq(code, "Comma") {
        Some((2, 2))
    } else if str_eq(code, "Digit9") {
        Some((2, 0))
    } else if str_eq(code, "Digit8") {
        Some((2, 1))
    } else if str_eq(code, "KeyJ") {
        Some((3, 7))
    } else if str_eq(code, "KeyI") {
        Some((3, 6))
    } else if str_eq(code, "KeyH") {
        Some((3, 5))
    } else if str_eq(code, "KeyG") {
        Some((3, 4))
    } else if str_eq(code, "KeyF") {
        Some((3, 3))
    } else if str_eq(code, "KeyE") {
        Some((3, 2))
    } else if str_eq(code, "KeyD") {
        Some((3, 1))
    } else if str_eq(code, "KeyC") {
        Some((3, 0))
    } else if str_eq(code, "KeyR") {
        Some((4, 7))
    } else if str_eq(code, "KeyQ") {
        Some((4, 6))
    } else if str_eq(code, "KeyP") {
        Some((4, 5))
    } else if str_eq(code, "KeyO") {
        Some((4, 4))
    } else if str_eq(code, "KeyN") {
        Some((4, 3))
    } else if str_eq(code, "KeyM") {
        Some((4, 2))
    } else if str_eq(code, "KeyL") {
        Some((4, 1))
    } else if str_eq(code, "KeyK") {
        Some((4, 0))
    } else if str_eq(code, "KeyZ") {
        Some((5, 7))
    } else if str_eq(code, "KeyY") {
        Some((5, 6))
    } else if str_eq(code, "KeyX") {
        Some((5, 5))
    } else if str_eq(code, "KeyW") {
        Some((5, 4))
    } else if str_eq(code, "KeyV") {
        Some((5, 3))
    } else if str_eq(code, "KeyU") {
        Some((5, 2))
    } else if str_eq(code, "KeyT") {
        Some((5, 1))
    } else if str_eq(code, "KeyS") {
        Some((5, 0))
    } else if str_eq(code, "F3") {
        Some((6, 7))
    } else if str_eq(code, "F2") {
        Some((6, 6))
    } else if str_eq(code, "F1") {
        Some((6, 5))
    } else if str_eq(code, "CapsLock") {
        Some((6, 3))
    } else if str_eq(code, "ControlLeft") {
        Some((6, 1))
    } else if str_eq(code, "ControlRight") {
        Some((6, 1))
    } else if str_eq(code, "ShiftLeft") {
        Some((6, 0))
    } else if str_eq(code, "ShiftRight") {
        Some((6, 0))
    } else if str_eq(code, "Enter") {
        Some((7, 7))
    } else if str_eq(code, "Backspace") {
        Some((7, 5))
    } else if str_eq(code, "Tab") {
        Some((7, 3))
    } else if str_eq(code, "Escape") {
        Some((7, 2))
    } else if str_eq(code, "F5") {
        Some((7, 1))
    } else if str_eq(code, "F4") {
        Some((7, 0))
    } else if str_eq(code, "ArrowRight") {
        Some((8, 7))
    } else if str_eq(code, "ArrowDown") {
        Some((8, 6))
    } else if str_eq(code, "ArrowUp") {
        Some((8, 5))
    } else if str_eq(code, "ArrowLeft") {
        Some((8, 4))
    } else if str_eq(code, "Delete") {
        Some((8, 3))
    } else if str_eq(code, "Insert") {
        Some((8, 2))
    } else if str_eq(code, "Home") {
        Some((8, 1))
    } else if str_eq(code, "Space") {
        Some((8, 0))
    } else if str_eq(code, "Numpad9") {
        Some((9, 7))
    } else if str_eq(code, "Numpad8") {
        Some((9, 6))
    } else if str_eq(code, "Numpad7") {
        Some((9, 5))
    } else if str_eq(code, "Numpad6") {
        Some((9, 4))
    } else if str_eq(code, "Numpad5") {
        Some((9, 3))
    } else if str_eq(code, "Numpad4") {
        Some((9, 2))
    } else if str_eq(code, "Numpad3") {
        Some((9, 1))
    } else if str_eq(code, "Numpad2") {
        Some((9, 0))
    } else if str_eq(code, "Numpad1") {
        Some((10, 7))
    } else if str_eq(code, "Numpad0") {
        Some((10, 6))
    } else if str_eq(code, "NumpadDecimal") {
        Some((10, 5))
    } else if str_eq(code, "NumpadAdd") {
        Some((10, 4))
    } else if str_eq(code, "NumpadSubtract") {
        Some((10, 3))
    } else if str_eq(code, "NumpadMultiply") {
        Some((10, 2))
    } else if str_eq(code, "NumpadDivide") {
        Some((10, 1))
    } else {
        None
    }
}

/// A matrix row after pressing the key at `bit` (active low: its bit cleared).
pub open spec fn pressed(row: u8, bit: u8) -> u8 {
    row & !(1u8 << bit)
}

/// The row after releasing the key at `bit` (its bit set).
pub open spec fn released(row: u8, bit: u8) -> u8 {
    row | (1u8 << bit)
}

/// The matrix after the key with code `code` goes down; a code with no
/// place in the matrix changes nothing.
pub open spec fn after_press(m: Seq<u8>, code: Seq<char>) -> Seq<u8> {
    match key_position(code) {
        Some((row, bit)) => m.update(row as int, pressed(m[row as int], bit)),
        None => m,
    }
}

/// The matrix after the key with code `code` goes up.
pub open spec fn after_release(m: Seq<u8>, code: Seq<char>) -> Seq<u8> {
    match key_position(code) {
        Some((row, bit)) => m.update(row as int, released(m[row as int], bit)),
        None => m,
    }
}

impl Keyboard {
    pub fn new() -> (k: Keyboard)
        ensures
            k.matrix@ == Seq::new(11, |i: int| 0xFFu8),
    {
        let k = Keyboard { matrix: [0xFFu8; 11] };
        assert(k.matrix@ =~= Seq::new(11, |i: int| 0xFFu8));
        k
    }

    /// The row of the matrix for column `col`; all keys up (0xFF) past the last row.
    pub fn read_row(&self, col: usize) -> (r: u8)
        ensures
            r == (if col < 11 { self.matrix@[col as int] } else { 0xFF }),
    {
        if col < 11 {
            self.matrix[col]
        } else {
            0xFF
        }
    }

    pub fn key_down(&mut self, code: &str)
        ensures
            final(self).matrix@ == after_press(old(self).matrix@, code@),
    {
        if let Some((row, bit)) = map_key(code) {
            self.matrix[row] = self.matrix[row] & !(1u8 << bit);
        }
    }

    pub fn key_up(&mut self, code: &str)
        ensures
            final(self).matrix@ == after_release(old(self).matrix@, code@),
    {
        if let Some((row, bit)) = map_key(code) {
            self.matrix[row] = self.matrix[row] | (1u8 << bit);
        }
    }
}

#[verifier::spinoff_prover]
proof fn lemma_position_arrow_right()
    ensures
        key_position("ArrowRight"@) == Some((8usize, 7u8)),
{
    reveal_strlit("Digit7");
    reveal_strlit("Digit6");
    reveal_strlit("Digit5");
    reveal_strlit("Digit4");
    reveal_strlit("Digit3");
    reveal_strlit("Digit2");
    reveal_strlit("Digit1");
    reveal_strlit("Digit0");
    reveal_strlit("Semicolon");
    reveal_strlit("BracketLeft");
    reveal_strlit("Backquote");
    reveal_strlit("Backslash");
    reveal_strlit("Equal");
    reveal_strlit("BracketRight");
    reveal_strlit("Minus");
    reveal_strlit("KeyB");
    reveal_strlit("KeyA");
    reveal_strlit("Slash");
    reveal_strlit("Period");
    reveal_strlit("Comma");
    reveal_strlit("Digit9");
    reveal_strlit("Digit8");
    reveal_strlit("KeyJ");
    reveal_strlit("KeyI");
    reveal_strlit("KeyH");
    reveal_strlit("KeyG");
    reveal_strlit("KeyF");
    reveal_strlit("KeyE");
    reveal_strlit("KeyD");
    reveal_strlit("KeyC");
    reveal_strlit("KeyR");
    reveal_strlit("KeyQ");
    reveal_strlit("KeyP");
    reveal_strlit("KeyO");
    reveal_strlit("KeyN");
    reveal_strlit("KeyM");
    reveal_strlit("KeyL");
    reveal_strlit("KeyK");
    reveal_strlit("KeyZ");
    reveal_strlit("KeyY");
    reveal_strlit("KeyX");
    reveal_strlit("KeyW");
    reveal_strlit("KeyV");
    reveal_strlit("KeyU");
    reveal_strlit("KeyT");
    reveal_strlit("KeyS");
    reveal_strlit("F3");
    reveal_strlit("F2");
    reveal_strlit("F1");
    reveal_strlit("CapsLock");
    reveal_strlit("ControlLeft");
    reveal_strlit("ControlRight");
    reveal_strlit("ShiftLeft");
    reveal_strlit("ShiftRight");
    reveal_strlit("Enter");
    reveal_strlit("Backspace");
    reveal_strlit("Tab");
    reveal_strlit("Escape");
    reveal_strlit("F5");
    reveal_strlit("F4");
    reveal_strlit("ArrowRight");
    assert("ArrowRight"@[0] != "ShiftRight"@[0]);
}

#[verifier::spinoff_prover]
proof fn lemma_position_arrow_down()
    ensures
        key_position("ArrowDown"@) == Some((8usize, 6u8)),
{
    reveal_strlit("Digit7");
    reveal_strlit("Digit6");
    reveal_strlit("Digit5");
    reveal_strlit("Digit4");
    reveal_strlit("Digit3");
    reveal_strlit("Digit2");
    reveal_strlit("Digit1");
    reveal_strlit("Digit0");
    reveal_strlit("Semicolon");
    reveal_strlit("BracketLeft");
    reveal_strlit("Backquote");
    reveal_strlit("Backslash");
    reveal_strlit("Equal");
    reveal_strlit("BracketRight");
    reveal_strlit("Minus");
    reveal_strlit("KeyB");
    reveal_strlit("KeyA");
    reveal_strlit("Slash");
    reveal_strlit("Period");
    reveal_strlit("Comma");
    reveal_strlit("Digit9");
    reveal_strlit("Digit8");
    reveal_strlit("KeyJ");
    reveal_strlit("KeyI");
    reveal_strlit("KeyH");
    reveal_strlit("KeyG");
    reveal_strlit("KeyF");
    reveal_strlit("KeyE");
    reveal_strlit("KeyD");
    reveal_strlit("KeyC");
    reveal_strlit("KeyR");
    reveal_strlit("KeyQ");
    reveal_strlit("KeyP");
    reveal_strlit("KeyO");
    reveal_strlit("KeyN");
    reveal_strlit("KeyM");
    reveal_strlit("KeyL");
    reveal_strlit("KeyK");
    reveal_strlit("KeyZ");
    reveal_strlit("KeyY");
    reveal_strlit("KeyX");
    reveal_strlit("KeyW");
    reveal_strlit("KeyV");
    reveal_strlit("KeyU");
    reveal_strlit("KeyT");
    reveal_strlit("KeyS");
    reveal_strlit("F3");
    reveal_strlit("F2");
    reveal_strlit("F1");
    reveal_strlit("CapsLock");
    reveal_strlit("ControlLeft");
    reveal_strlit("ControlRight");
    reveal_strlit("ShiftLeft");
    reveal_strlit("ShiftRight");
    reveal_strlit("Enter");
    reveal_strlit("Backspace");
    reveal_strlit("Tab");
    reveal_strlit("Escape");
    reveal_strlit("F5");
    reveal_strlit("F4");
    reveal_strlit("ArrowRight");
    reveal_strlit("ArrowDown");
    assert("ArrowDown"@.len() == 9);
    assert("Digit7"@.len() == 6);
    assert("ArrowDown"@ != "Digit7"@);
    assert("Digit6"@.len() == 6);
    assert("ArrowDown"@ != "Digit6"@);
    assert("Digit5"@.len() == 6);
    assert("ArrowDown"@ != "Digit5"@);
    assert("Digit4"@.len() == 6);
    assert("ArrowDown"@ != "Digit4"@);
    assert("Digit3"@.len() == 6);
    assert("ArrowDown"@ != "Digit3"@);
    assert("Digit2"@.len() == 6);
    assert("ArrowDown"@ != "Digit2"@);
    assert("Digit1"@.len() == 6);
    assert("ArrowDown"@ != "Digit1"@);
    assert("Digit0"@.len() == 6);
    assert("ArrowDown"@ != "Digit0"@);
    assert("ArrowDown"@[0] != "Semicolon"@[0]);
    assert("ArrowDown"@ != "Semicolon"@);
    assert("BracketLeft"@.len() == 11);
    assert("ArrowDown"@ != "BracketLeft"@);
    assert("ArrowDown"@[0] != "Backquote"@[0]);
    assert("ArrowDown"@ != "Backquote"@);
    assert("ArrowDown"@[0] != "Backslash"@[0]);
    assert("ArrowDown"@ != "Backslash"@);
    assert("Equal"@.len() == 5);
    assert("ArrowDown"@ != "Equal"@);
    assert("BracketRight"@.len() == 12);
    assert("ArrowDown"@ != "BracketRight"@);
    assert("Minus"@.len() == 5);
    assert("ArrowDown"@ != "Minus"@);
    assert("KeyB"@.len() == 4);
    assert("ArrowDown"@ != "KeyB"@);
    assert("KeyA"@.len() == 4);
    assert("ArrowDown"@ != "KeyA"@);
    assert("Slash"@.len() == 5);
    assert("ArrowDown"@ != "Slash"@);
    assert("Period"@.len() == 6);
    assert("ArrowDown"@ != "Period"@);
    assert("Comma"@.len() == 5);
    assert("ArrowDown"@ != "Comma"@);
    assert("Digit9"@.len() == 6);
    assert("ArrowDown"@ != "Digit9"@);
    assert("Digit8"@.len() == 6);
    assert("ArrowDown"@ != "Digit8"@);
    assert("KeyJ"@.len() == 4);
    assert("ArrowDown"@ != "KeyJ"@);
    assert("KeyI"@.len() == 4);
    assert("ArrowDown"@ != "KeyI"@);
    assert("KeyH"@.len() == 4);
    assert("ArrowDown"@ != "KeyH"@);
    assert("KeyG"@.len() == 4);
    assert("ArrowDown"@ != "KeyG"@);
    assert("KeyF"@.len() == 4);
    assert("ArrowDown"@ != "KeyF"@);
    assert("KeyE"@.len() == 4);
    assert("ArrowDown"@ != "KeyE"@);
    assert("KeyD"@.len() == 4);
    assert("ArrowDown"@ != "KeyD"@);
    assert("KeyC"@.len() == 4);
    assert("ArrowDown"@ != "KeyC"@);
    assert("KeyR"@.len() == 4);
    assert("ArrowDown"@ != "KeyR"@);
    assert("KeyQ"@.len() == 4);
    assert("ArrowDown"@ != "KeyQ"@);
    assert("KeyP"@.len() == 4);
    assert("ArrowDown"@ != "KeyP"@);
    assert("KeyO"@.len() == 4);
    assert("ArrowDown"@ != "KeyO"@);
    assert("KeyN"@.len() == 4);
    assert("ArrowDown"@ != "KeyN"@);
    assert("KeyM"@.len() == 4);
    assert("ArrowDown"@ != "KeyM"@);
    assert("KeyL"@.len() == 4);
    assert("ArrowDown"@ != "KeyL"@);
    assert("KeyK"@.len() == 4);
    assert("ArrowDown"@ != "KeyK"@);
    assert("KeyZ"@.len() == 4);
    assert("ArrowDown"@ != "KeyZ"@);
    assert("KeyY"@.len() == 4);
    assert("ArrowDown"@ != "KeyY"@);
    assert("KeyX"@.len() == 4);
    assert("ArrowDown"@ != "KeyX"@);
    assert("KeyW"@.len() == 4);
    assert("ArrowDown"@ != "KeyW"@);
    assert("KeyV"@.len() == 4);
    assert("ArrowDown"@ != "KeyV"@);
    assert("KeyU"@.len() == 4);
    assert("ArrowDown"@ != "KeyU"@);
    assert("KeyT"@.len() == 4);
    assert("ArrowDown"@ != "KeyT"@);
    assert("KeyS"@.len() == 4);
    assert("ArrowDown"@ != "KeyS"@);
    assert("F3"@.len() == 2);
    assert("ArrowDown"@ != "F3"@);
    assert("F2"@.len() == 2);
    assert("ArrowDown"@ != "F2"@);
    assert("F1"@.len() == 2);
    assert("ArrowDown"@ != "F1"@);
    assert("CapsLock"@.len() == 8);
    assert("ArrowDown"@ != "CapsLock"@);
    assert("ControlLeft"@.len() == 11);
    assert("ArrowDown"@ != "ControlLeft"@);
    assert("ControlRight"@.len() == 12);
    assert("ArrowDown"@ != "ControlRight"@);
    assert("ArrowDown"@[0] != "ShiftLeft"@[0]);
    assert("ArrowDown"@ != "ShiftLeft"@);
    assert("ShiftRight"@.len() == 10);
    assert("ArrowDown"@ != "ShiftRight"@);
    assert("Enter"@.len() == 5);
    assert("ArrowDown"@ != "Enter"@);
    assert("ArrowDown"@[0] != "Backspace"@[0]);
    assert("ArrowDown"@ != "Backspace"@);
    assert("Tab"@.len() == 3);
    assert("ArrowDown"@ != "Tab"@);
    assert("Escape"@.len() == 6);
    assert("ArrowDown"@ != "Escape"@);
    assert("F5"@.len() == 2);
    assert("ArrowDown"@ != "F5"@);
    assert("F4"@.len() == 2);
    assert("ArrowDown"@ != "F4"@);
    assert("ArrowRight"@.len() == 10);
    assert("ArrowDown"@ != "ArrowRight"@);
}

#[verifier::spinoff_prover]
proof fn lemma_position_arrow_up()
    ensures
        key_position("ArrowUp"@) == Some((8usize, 5u8)),
{
    reveal_strlit("Digit7");
    reveal_strlit("Digit6");
    reveal_strlit("Digit5");
    reveal_strlit("Digit4");
    reveal_strlit("Digit3");
    reveal_strlit("Digit2");
    reveal_strlit("Digit1");
    reveal_strlit("Digit0");
    reveal_strlit("Semicolon");
    reveal_strlit("BracketLeft");
    reveal_strlit("Backquote");
    reveal_strlit("Backslash");
    reveal_strlit("Equal");
    reveal_strlit("BracketRight");
    reveal_strlit("Minus");
    reveal_strlit("KeyB");
    reveal_strlit("KeyA");
    reveal_strlit("Slash");
    reveal_strlit("Period");
    reveal_strlit("Comma");
    reveal_strlit("Digit9");
    reveal_strlit("Digit8");
    reveal_strlit("KeyJ");
    reveal_strlit("KeyI");
    reveal_strlit("KeyH");
    reveal_strlit("KeyG");
    reveal_strlit("KeyF");
    reveal_strlit("KeyE");
    reveal_strlit("KeyD");
    reveal_strlit("KeyC");
    reveal_strlit("KeyR");
    reveal_strlit("KeyQ");
    reveal_strlit("KeyP");
    reveal_strlit("KeyO");
    reveal_strlit("KeyN");
    reveal_strlit("KeyM");
    reveal_strlit("KeyL");
    reveal_strlit("KeyK");
    reveal_strlit("KeyZ");
    reveal_strlit("KeyY");
    reveal_strlit("KeyX");
    reveal_strlit("KeyW");
    reveal_strlit("KeyV");
    reveal_strlit("KeyU");
    reveal_strlit("KeyT");
    reveal_strlit("KeyS");
    reveal_strlit("F3");
    reveal_strlit("F2");
    reveal_strlit("F1");
    reveal_strlit("CapsLock");
    reveal_strlit("ControlLeft");
    reveal_strlit("ControlRight");
    reveal_strlit("ShiftLeft");
    reveal_strlit("ShiftRight");
    reveal_strlit("Enter");
    reveal_strlit("Backspace");
    reveal_strlit("Tab");
    reveal_strlit("Escape");
    reveal_strlit("F5");
    reveal_strlit("F4");
    reveal_strlit("ArrowRight");
    reveal_strlit("ArrowDown");
    reveal_strlit("ArrowUp");
    assert("ArrowUp"@.len() == 7);
    assert("Digit7"@.len() == 6);
    assert("ArrowUp"@ != "Digit7"@);
    assert("Digit6"@.len() == 6);
    assert("ArrowUp"@ != "Digit6"@);
    assert("Digit5"@.len() == 6);
    assert("ArrowUp"@ != "Digit5"@);
    assert("Digit4"@.len() == 6);
    assert("ArrowUp"@ != "Digit4"@);
    assert("Digit3"@.len() == 6);
    assert("ArrowUp"@ != "Digit3"@);
    assert("Digit2"@.len() == 6);
    assert("ArrowUp"@ != "Digit2"@);
    assert("Digit1"@.len() == 6);
    assert("ArrowUp"@ != "Digit1"@);
    assert("Digit0"@.len() == 6);
    assert("ArrowUp"@ != "Digit0"@);
    assert("Semicolon"@.len() == 9);
    assert("ArrowUp"@ != "Semicolon"@);
    assert("BracketLeft"@.len() == 11);
    assert("ArrowUp"@ != "BracketLeft"@);
    assert("Backquote"@.len() == 9);
    assert("ArrowUp"@ != "Backquote"@);
    assert("Backslash"@.len() == 9);
    assert("ArrowUp"@ != "Backslash"@);
    assert("Equal"@.len() == 5);
    assert("ArrowUp"@ != "Equal"@);
    assert("BracketRight"@.len() == 12);
    assert("ArrowUp"@ != "BracketRight"@);
    assert("Minus"@.len() == 5);
    assert("ArrowUp"@ != "Minus"@);
    assert("KeyB"@.len() == 4);
    assert("ArrowUp"@ != "KeyB"@);
    assert("KeyA"@.len() == 4);
    assert("ArrowUp"@ != "KeyA"@);
    assert("Slash"@.len() == 5);
    assert("ArrowUp"@ != "Slash"@);
    assert("Period"@.len() == 6);
    assert("ArrowUp"@ != "Period"@);
    assert("Comma"@.len() == 5);
    assert("ArrowUp"@ != "Comma"@);
    assert("Digit9"@.len() == 6);
    assert("ArrowUp"@ != "Digit9"@);
    assert("Digit8"@.len() == 6);
    assert("ArrowUp"@ != "Digit8"@);
    assert("KeyJ"@.len() == 4);
    assert("ArrowUp"@ != "KeyJ"@);
    assert("KeyI"@.len() == 4);
    assert("ArrowUp"@ != "KeyI"@);
    assert("KeyH"@.len() == 4);
    assert("ArrowUp"@ != "KeyH"@);
    assert("KeyG"@.len() == 4);
    assert("ArrowUp"@ != "KeyG"@);
    assert("KeyF"@.len() == 4);
    assert("ArrowUp"@ != "KeyF"@);
    assert("KeyE"@.len() == 4);
    assert("ArrowUp"@ != "KeyE"@);
    assert("KeyD"@.len() == 4);
    assert("ArrowUp"@ != "KeyD"@);
    assert("KeyC"@.len() == 4);
    assert("ArrowUp"@ != "KeyC"@);
    assert("KeyR"@.len() == 4);
    assert("ArrowUp"@ != "KeyR"@);
    assert("KeyQ"@.len() == 4);
    assert("ArrowUp"@ != "KeyQ"@);
    assert("KeyP"@.len() == 4);
    assert("ArrowUp"@ != "KeyP"@);
    assert("KeyO"@.len() == 4);
    assert("ArrowUp"@ != "KeyO"@);
    assert("KeyN"@.len() == 4);
    assert("ArrowUp"@ != "KeyN"@);
    assert("KeyM"@.len() == 4);
    assert("ArrowUp"@ != "KeyM"@);
    assert("KeyL"@.len() == 4);
    assert("ArrowUp"@ != "KeyL"@);
    assert("KeyK"@.len() == 4);
    assert("ArrowUp"@ != "KeyK"@);
    assert("KeyZ"@.len() == 4);
    assert("ArrowUp"@ != "KeyZ"@);
    assert("KeyY"@.len() == 4);
    assert("ArrowUp"@ != "KeyY"@);
    assert("KeyX"@.len() == 4);
    assert("ArrowUp"@ != "KeyX"@);
    assert("KeyW"@.len() == 4);
    assert("ArrowUp"@ != "KeyW"@);
    assert("KeyV"@.len() == 4);
    assert("ArrowUp"@ != "KeyV"@);
    assert("KeyU"@.len() == 4);
    assert("ArrowUp"@ != "KeyU"@);
    assert("KeyT"@.len() == 4);
    assert("ArrowUp"@ != "KeyT"@);
    assert("KeyS"@.len() == 4);
    assert("ArrowUp"@ != "KeyS"@);
    assert("F3"@.len() == 2);
    assert("ArrowUp"@ != "F3"@);
    assert("F2"@.len() == 2);
    assert("ArrowUp"@ != "F2"@);
    assert("F1"@.len() == 2);
    assert("ArrowUp"@ != "F1"@);
    assert("CapsLock"@.len() == 8);
    assert("ArrowUp"@ != "CapsLock"@);
    assert("ControlLeft"@.len() == 11);
    assert("ArrowUp"@ != "ControlLeft"@);
    assert("ControlRight"@.len() == 12);
    assert("ArrowUp"@ != "ControlRight"@);
    assert("ShiftLeft"@.len() == 9);
    assert("ArrowUp"@ != "ShiftLeft"@);
    assert("ShiftRight"@.len() == 10);
    assert("ArrowUp"@ != "ShiftRight"@);
    assert("Enter"@.len() == 5);
    assert("ArrowUp"@ != "Enter"@);
    assert("Backspace"@.len() == 9);
    assert("ArrowUp"@ != "Backspace"@);
    assert("Tab"@.len() == 3);
    assert("ArrowUp"@ != "Tab"@);
    assert("Escape"@.len() == 6);
    assert("ArrowUp"@ != "Escape"@);
    assert("F5"@.len() == 2);
    assert("ArrowUp"@ != "F5"@);
    assert("F4"@.len() == 2);
    assert("ArrowUp"@ != "F4"@);
    assert("ArrowRight"@.len() == 10);
    assert("ArrowUp"@ != "ArrowRight"@);
    assert("ArrowDown"@.len() == 9);
    assert("ArrowUp"@ != "ArrowDown"@);
}

#[verifier::spinoff_prover]
proof fn lemma_position_arrow_left()
    ensures
        key_position("ArrowLeft"@) == Some((8usize, 4u8)),
{
    reveal_strlit("Digit7");
    reveal_strlit("Digit6");
    reveal_strlit("Digit5");
    reveal_strlit("Digit4");
    reveal_strlit("Digit3");
    reveal_strlit("Digit2");
    reveal_strlit("Digit1");
    reveal_strlit("Digit0");
    reveal_strlit("Semicolon");
    reveal_strlit("BracketLeft");
    reveal_strlit("Backquote");
    reveal_strlit("Backslash");
    reveal_strlit("Equal");
    reveal_strlit("BracketRight");
    reveal_strlit("Minus");
    reveal_strlit("KeyB");
    reveal_strlit("KeyA");
    reveal_strlit("Slash");
    reveal_strlit("Period");
    reveal_strlit("Comma");
    reveal_strlit("Digit9");
    reveal_strlit("Digit8");
    reveal_strlit("KeyJ");
    reveal_strlit("KeyI");
    reveal_strlit("KeyH");
    reveal_strlit("KeyG");
    reveal_strlit("KeyF");
    reveal_strlit("KeyE");
    reveal_strlit("KeyD");
    reveal_strlit("KeyC");
    reveal_strlit("KeyR");
    reveal_strlit("KeyQ");
    reveal_strlit("KeyP");
    reveal_strlit("KeyO");
    reveal_strlit("KeyN");
    reveal_strlit("KeyM");
    reveal_strlit("KeyL");
    reveal_strlit("KeyK");
    reveal_strlit("KeyZ");
    reveal_strlit("KeyY");
    reveal_strlit("KeyX");
    reveal_strlit("KeyW");
    reveal_strlit("KeyV");
    reveal_strlit("KeyU");
    reveal_strlit("KeyT");
    reveal_strlit("KeyS");
    reveal_strlit("F3");
    reveal_strlit("F2");
    reveal_strlit("F1");
    reveal_strlit("CapsLock");
    reveal_strlit("ControlLeft");
    reveal_strlit("ControlRight");
    reveal_strlit("ShiftLeft");
    reveal_strlit("ShiftRight");
    reveal_strlit("Enter");
    reveal_strlit("Backspace");
    reveal_strlit("Tab");
    reveal_strlit("Escape");
    reveal_strlit("F5");
    reveal_strlit("F4");
    reveal_strlit("ArrowRight");
    reveal_strlit("ArrowDown");
    reveal_strlit("ArrowUp");
    reveal_strlit("ArrowLeft");
    assert("ArrowLeft"@[0] != "Semicolon"@[0]);
    assert("ArrowLeft"@[0] != "Backquote"@[0]);
    assert("ArrowLeft"@[0] != "Backslash"@[0]);
    assert("ArrowLeft"@[0] != "ShiftLeft"@[0]);
    assert("ArrowLeft"@[0] != "Backspace"@[0]);
    assert("ArrowLeft"@[5] != "ArrowDown"@[5]);
}

/// The cursor keys sit in row 8 of the matrix: Right at bit 7, Down at
/// bit 6, Up at bit 5 and Left at bit 4. Pressing one clears just that bit
/// of row 8, whatever the matrix held, and leaves the other rows as they
/// were: from a matrix with every key up, row 8 reads 0xDF after Up and
/// 0xBF after Down.
pub proof fn lemma_cursor_keys(m: Seq<u8>)
    requires
        m.len() == 11,
    ensures
        key_position("ArrowRight"@) == Some((8usize, 7u8)),
        key_position("ArrowDown"@) == Some((8usize, 6u8)),
        key_position("ArrowUp"@) == Some((8usize, 5u8)),
        key_position("ArrowLeft"@) == Some((8usize, 4u8)),
        after_press(m, "ArrowRight"@) == m.update(8, m[8] & 0x7F),
        after_press(m, "ArrowDown"@) == m.update(8, m[8] & 0xBF),
        after_press(m, "ArrowUp"@) == m.update(8, m[8] & 0xDF),
        after_press(m, "ArrowLeft"@) == m.update(8, m[8] & 0xEF),
{
    lemma_position_arrow_right();
    lemma_position_arrow_down();
    lemma_position_arrow_up();
    lemma_position_arrow_left();
    let r = m[8];
    assert(pressed(r, 7) == r & 0x7F && pressed(r, 6) == r & 0xBF && pressed(r, 5) == r & 0xDF
        && pressed(r, 4) == r & 0xEF) by (bit_vector);
}

/// Pressing a key clears its bit and nothing else, releasing sets it.
proof fn lemma_press_bits(r: u8, b: u8)
    requires
        b < 8,
    ensures
        pressed(r, b) & (1u8 << b) == 0,
        released(r, b) & (1u8 << b) != 0,
        forall|k: u8| k < 8 && k != b ==> (#[trigger] (pressed(r, b) & (1u8 << k)) == r & (1u8 << k)),
        r & (1u8 << b) != 0 ==> released(pressed(r, b), b) == r,
        r & (1u8 << b) == 0 ==> pressed(released(r, b), b) == r,
{
    assert(r & !(1u8 << b) & (1u8 << b) == 0) by (bit_vector)
        requires
            b < 8,
    ;
    assert((r | (1u8 << b)) & (1u8 << b) != 0) by (bit_vector)
        requires
            b < 8,
    ;
    assert forall|k: u8| k < 8 && k != b implies (#[trigger] (pressed(r, b) & (1u8 << k)) == r & (1u8 << k)) by {
        assert(r & !(1u8 << b) & (1u8 << k) == r & (1u8 << k)) by (bit_vector)
            requires
                b < 8,
                k < 8,
                k != b,
        ;
    }
    assert(r & (1u8 << b) != 0 ==> (r & !(1u8 << b)) | (1u8 << b) == r) by (bit_vector)
        requires
            b < 8,
    ;
    assert(r & (1u8 << b) == 0 ==> (r | (1u8 << b)) & !(1u8 << b) == r) by (bit_vector)
        requires
            b < 8,
    ;
}

/// Every key the matrix knows sits in one of its eleven rows, at one of the
/// eight bits. Pressing it clears that bit of that row and changes no other
/// bit of the matrix; releasing it sets the bit; and releasing a key that
/// was up before it went down gives the matrix back as it was, as pressing
/// a key that was down before it went up does. A code with no place in the
/// matrix changes nothing.
pub proof fn lemma_press_release(m: Seq<u8>, code: Seq<char>)
    requires
        m.len() == 11,
    ensures
        match key_position(code) {
            Some((row, bit)) => {
                let down = after_press(m, code);
                let up = after_release(m, code);
                &&& row < 11 && bit < 8
                &&& down.len() == 11 && up.len() == 11
                &&& down[row as int] & (1u8 << bit) == 0
                &&& up[row as int] & (1u8 << bit) != 0
                &&& forall|k: u8| k < 8 && k != bit ==> (#[trigger] (down[row as int] & (1u8 << k))) == m[row as int] & (1u8 << k)
                &&& forall|i: int| 0 <= i < 11 && i != row ==> down[i] == m[i] && up[i] == m[i]
                &&& m[row as int] & (1u8 << bit) != 0 ==> after_release(down, code) == m
                &&& m[row as int] & (1u8 << bit) == 0 ==> after_press(up, code) == m
            },
            None => after_press(m, code) == m && after_release(m, code) == m,
        },
{
    if let Some((row, bit)) = key_position(code) {
        assert(row < 11 && bit < 8);
        lemma_press_bits(m[row as int], bit);
        let down = after_press(m, code);
        let up = after_release(m, code);
        if m[row as int] & (1u8 << bit) != 0 {
            assert(after_release(down, code) =~= m);
        }
        if m[row as int] & (1u8 << bit) == 0 {
            assert(after_press(up, code) =~= m);
        }
    }
}

} // verus!
