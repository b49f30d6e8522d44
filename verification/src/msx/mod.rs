pub mod z80;
pub mod z80_spec;
pub mod vdp;
pub mod keyboard;
pub mod ppi;
pub mod psg;
pub mod memory;
pub mod machine;
