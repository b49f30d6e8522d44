//! The 8255 parallel interface: slot select (port A), keyboard row (port B),
//! keyboard column and misc. outputs (port C), and the control word.
use vstd::prelude::*;
use crate::msx::keyboard::Keyboard;

verus! {

#[derive(Clone, Copy)]
pub struct Ppi {
    pub port_a: u8,
    pub port_b: u8,
    pub port_c: u8,
    pub control: u8,
}

/// The keyboard row that port C's low nibble selects, as port B shows it.
pub open spec fn scanned_row(port_c: u8, matrix: Seq<u8>) -> u8 {
    let col = port_c % 16;
    if col < 11 { matrix[col as int] } else { 0xFF }
}

pub open spec fn spec_update_keyboard(p: Ppi, matrix: Seq<u8>) -> Ppi {
    Ppi { port_b: scanned_row(p.port_c, matrix), ..p }
}

impl Ppi {
    pub fn new() -> (p: Ppi)
        ensures
            p == (Ppi { port_a: 0, port_b: 0xFF, port_c: 0, control: 0x9B }),
    {
        Ppi { port_a: 0, port_b: 0xFF, port_c: 0, control: 0x9B }
    }

    pub fn read(&self, port: u8) -> (r: u8)
        ensures
            r == (if port == 0xA8 { self.port_a } else if port == 0xA9 { self.port_b }
                else if port == 0xAA { self.port_c } else { 0xFF }),
    {
        match port {
            0xA8 => self.port_a,
            0xA9 => self.port_b,
            0xAA => self.port_c,
            _ => 0xFF,
        }
    }

    pub fn write(&mut self, port: u8, val: u8, keyboard: &Keyboard)
        ensures
            *final(self) == (if port == 0xA8 { Ppi { port_a: val, ..*old(self) } }
                else if port == 0xAA { spec_update_keyboard(Ppi { port_c: val, ..*old(self) }, keyboard.matrix@) }
                else if port == 0xAB { Ppi { control: val, ..*old(self) } }
                else { *old(self) }),
    {
        match port {
            0xA8 => self.port_a = val,
            0xAA => {
                self.port_c = val;
                self.update_keyboard(keyboard);
            },
            0xAB => self.control = val,
            _ => {},
        }
    }

    /// Latch into port B the keyboard row that port C selects.
    pub fn update_keyboard(&mut self, keyboard: &Keyboard)
        ensures
            *final(self) == spec_update_keyboard(*old(self), keyboard.matrix@),
    {
        let col = (self.port_c % 16) as usize;
        self.port_b = keyboard.read_row(col);
    }
}

} // verus!
