//! The MSX bus: four primary slots (BIOS and sub-ROM in slot 0, the
//! cartridge in slot 1, RAM in slot 3) selected per 16 KiB page by port
//! 0xA8, the cartridge's sub-slot register at 0xFFFF, and the I/O ports of
//! the VDP, the PSG and the PPI.
use vstd::prelude::*;
use crate::msx::z80::BusAccess;
use crate::msx::vdp::{Vdp, VdpView, spec_write_data, spec_write_ctrl, spec_read_data, spec_read_status};
use crate::msx::psg::{Psg, GenState, written_regs, written_gen};
use crate::msx::ppi::{Ppi, spec_update_keyboard};
use crate::msx::keyboard::Keyboard;

verus! {

pub struct Bus {
    pub ram: Box<[u8; 65536]>,
    pub bios: Vec<u8>,
    pub sub_rom: Vec<u8>,
    pub cart: Vec<u8>,
    pub slot_select: u8,
    pub sub_slot_select: [u8; 4],
    pub vdp: Vdp,
    pub psg: Psg,
    pub ppi: Ppi,
    pub keyboard: Keyboard,
}

/// The bus as a mathematical value.
pub struct BusView {
    pub ram: Seq<u8>,
    pub bios: Seq<u8>,
    pub sub_rom: Seq<u8>,
    pub cart: Seq<u8>,
    pub slot_select: u8,
    pub sub_slot_select: Seq<u8>,
    pub vdp: VdpView,
    pub psg_regs: Seq<u8>,
    pub psg_addr: u8,
    pub psg_gen: GenState,
    pub psg_sample_counter: u32,
    pub psg_samples: Seq<[u8; 3]>,
    pub ppi: Ppi,
    pub keys: Seq<u8>,
}

/// The two bits of `sel` for page `page` (0 to 3).
pub open spec fn page_bits(sel: u8, page: int) -> int {
    if page == 0 {
        sel as int % 4
    } else if page == 1 {
        (sel as int / 4) % 4
    } else if page == 2 {
        (sel as int / 16) % 4
    } else {
        (sel as int / 64) % 4
    }
}

/// The primary slot that serves address `addr`.
pub open spec fn slot_of(s: BusView, addr: u16) -> int {
    page_bits(s.slot_select, addr as int / 16384)
}

/// What slot `slot` holds at `addr`: slot 0 the BIOS, with the sub-ROM over
/// it from 0x4000 where it has data; slot 1 the cartridge from 0x4000 when
/// its sub-slot 0 is selected for the page; slot 3 RAM; 0xFF elsewhere.
pub open spec fn read_slot(s: BusView, slot: int, addr: u16) -> u8 {
    if slot == 0 {
        if addr >= 0x4000 && s.sub_rom.len() > 0 && addr - 0x4000 < s.sub_rom.len() {
            s.sub_rom[addr - 0x4000]
        } else if (addr as int) < s.bios.len() {
            s.bios[addr as int]
        } else {
            0xFF
        }
    } else if slot == 1 {
        if s.cart.len() == 0 {
            0xFF
        } else if page_bits(s.sub_slot_select[1], addr as int / 16384) == 0 && addr >= 0x4000 && addr
            - 0x4000 < s.cart.len() {
            s.cart[addr - 0x4000]
        } else {
            0xFF
        }
    } else if slot == 3 {
        s.ram[addr as int]
    } else {
        0xFF
    }
}

pub open spec fn bus_mem_read(s: BusView, addr: u16) -> u8 {
    let slot = slot_of(s, addr);
    if addr == 0xFFFF && slot == 1 && s.cart.len() > 0 {
        !s.sub_slot_select[1]
    } else {
        read_slot(s, slot, addr)
    }
}

pub open spec fn bus_mem_write(s: BusView, addr: u16, val: u8) -> BusView {
    let slot = slot_of(s, addr);
    if addr == 0xFFFF {
        BusView { sub_slot_select: s.sub_slot_select.update(slot, val), ..s }
    } else if slot == 3 {
        BusView { ram: s.ram.update(addr as int, val), ..s }
    } else {
        s
    }
}

pub open spec fn bus_io_read(s: BusView, port: u16) -> (BusView, u8) {
    let p = port % 256;
    if p == 0x98 {
        let (v, r) = spec_read_data(s.vdp);
        (BusView { vdp: v, ..s }, r)
    } else if p == 0x99 {
        let (v, r) = spec_read_status(s.vdp);
        (BusView { vdp: v, ..s }, r)
    } else if p == 0xA2 {
        (s, s.psg_regs[s.psg_addr as int % 16])
    } else if p == 0xA8 {
        (s, s.slot_select)
    } else if p == 0xA9 {
        let q = spec_update_keyboard(s.ppi, s.keys);
        (BusView { ppi: q, ..s }, q.port_b)
    } else if p == 0xAA {
        (s, s.ppi.port_c)
    } else if p == 0xAB {
        (s, s.ppi.control)
    } else {
        (s, 0xFF)
    }
}

pub open spec fn bus_io_write(s: BusView, port: u16, val: u8) -> BusView {
    let p = port % 256;
    if p == 0x98 {
        BusView { vdp: spec_write_data(s.vdp, val), ..s }
    } else if p == 0x99 {
        BusView { vdp: spec_write_ctrl(s.vdp, val), ..s }
    } else if p == 0xA0 {
        BusView { psg_addr: val & 0x0F, ..s }
    } else if p == 0xA1 {
        BusView {
            psg_regs: written_regs(s.psg_regs, s.psg_addr, val),
            psg_gen: written_gen(s.psg_gen, s.psg_addr, val),
            ..s
        }
    } else if p == 0xA8 {
        BusView { slot_select: val, ppi: Ppi { port_a: val, ..s.ppi }, ..s }
    } else if p == 0xAA {
        BusView { ppi: spec_update_keyboard(Ppi { port_c: val, ..s.ppi }, s.keys), ..s }
    } else if p == 0xAB {
        BusView { ppi: Ppi { control: val, ..s.ppi }, ..s }
    } else {
        s
    }
}

/// The ROM images, the keyboard and the sound generator's counters: no
/// CPU access changes them.
pub open spec fn fixed_parts(s: BusView) -> (Seq<u8>, Seq<u8>, Seq<u8>, Seq<u8>, Seq<u32>, u32, u32, Seq<[u8; 3]>) {
    (s.bios, s.sub_rom, s.cart, s.keys, s.psg_gen.tone_counter, s.psg_gen.noise_counter, s.psg_sample_counter, s.psg_samples)
}

impl Bus {
    pub open spec fn view_of(&self) -> BusView {
        BusView {
            ram: self.ram@,
            bios: self.bios@,
            sub_rom: self.sub_rom@,
            cart: self.cart@,
            slot_select: self.slot_select,
            sub_slot_select: self.sub_slot_select@,
            vdp: self.vdp@,
            psg_regs: self.psg.regs@,
            psg_addr: self.psg.addr,
            psg_gen: self.psg.gen(),
            psg_sample_counter: self.psg.sample_counter,
            psg_samples: self.psg.samples@,
            ppi: self.ppi,
            keys: self.keyboard.matrix@,
        }
    }
}

impl BusAccess for Bus {
    type BusState = BusView;

    type Unaffected = (Seq<u8>, Seq<u8>, Seq<u8>, Seq<u8>, Seq<u32>, u32, u32, Seq<[u8; 3]>);

    open spec fn state(&self) -> BusView {
        self.view_of()
    }

    open spec fn unaffected(s: BusView) -> (Seq<u8>, Seq<u8>, Seq<u8>, Seq<u8>, Seq<u32>, u32, u32, Seq<[u8; 3]>) {
        fixed_parts(s)
    }

    open spec fn spec_mem_read(s: BusView, addr: u16) -> (BusView, u8) {
        (s, bus_mem_read(s, addr))
    }

    open spec fn spec_mem_write(s: BusView, addr: u16, val: u8) -> BusView {
        bus_mem_write(s, addr, val)
    }

    open spec fn spec_io_read(s: BusView, port: u16) -> (BusView, u8) {
        bus_io_read(s, port)
    }

    open spec fn spec_io_write(s: BusView, port: u16, val: u8) -> BusView {
        bus_io_write(s, port, val)
    }

    fn mem_read(&mut self, addr: u16) -> (v: u8) {
        let slot = self.slot_for(addr);
        if addr == 0xFFFF && slot == 1 && self.cart.len() > 0 {
            return !self.sub_slot_select[1];
        }
        self.read_slot(slot, addr)
    }

    fn mem_write(&mut self, addr: u16, val: u8) {
        let slot = self.slot_for(addr);
        if addr == 0xFFFF {
            self.sub_slot_select[slot as usize] = val;
            return;
        }
        if slot == 3 {
            self.ram[addr as usize] = val;
        }
    }

    fn io_read(&mut self, port: u16) -> (v: u8) {
        let p = port % 256;
        if p == 0x98 {
            self.vdp.read_data()
        } else if p == 0x99 {
            self.vdp.read_status()
        } else if p == 0xA2 {
            self.psg.read_data()
        } else if p == 0xA8 {
            self.slot_select
        } else if p == 0xA9 {
            self.ppi.update_keyboard(&self.keyboard);
            self.ppi.port_b
        } else if p == 0xAA {
            self.ppi.port_c
        } else if p == 0xAB {
            self.ppi.control
        } else {
            0xFF
        }
    }

    fn io_write(&mut self, port: u16, val: u8) {
        let p = port % 256;
        if p == 0x98 {
            self.vdp.write_data(val);
        } else if p == 0x99 {
            self.vdp.write_ctrl(val);
        } else if p == 0xA0 {
            self.psg.write_addr(val);
        } else if p == 0xA1 {
            self.psg.write_data(val);
        } else if p == 0xA8 {
            self.slot_select = val;
            self.ppi.port_a = val;
        } else if p == 0xAA {
            self.ppi.port_c = val;
            self.ppi.update_keyboard(&self.keyboard);
        } else if p == 0xAB {
            self.ppi.control = val;
        }
    }
}

impl Bus {
    /// The primary slot serving `addr`.
    fn slot_for(&self, addr: u16) -> (slot: u8)
        ensures
            slot as int == slot_of(self.view_of(), addr),
            slot < 4,
    {
        let page = addr / 16384;
        let sel = self.slot_select;
        if page == 0 {
            sel % 4
        } else if page == 1 {
            (sel / 4) % 4
        } else if page == 2 {
            (sel / 16) % 4
        } else {
            (sel / 64) % 4
        }
    }

    fn read_slot(&self, slot: u8, addr: u16) -> (r: u8)
        ensures
            r == read_slot(self.view_of(), slot as int, addr),
    {
        if slot == 0 {
            if addr >= 0x4000 && self.sub_rom.len() > 0 {
                let sub_off = (addr - 0x4000) as usize;
                if sub_off < self.sub_rom.len() {
                    return self.sub_rom[sub_off];
                }
            }
            let off = addr as usize;
            if off < self.bios.len() {
                self.bios[off]
            } else {
                0xFF
            }
        } else if slot == 1 {
            if self.cart.len() == 0 {
                return 0xFF;
            }
            let page = addr / 16384;
            let sel = self.sub_slot_select[1];
            let sub_slot = if page == 0 {
                sel % 4
            } else if page == 1 {
                (sel / 4) % 4
            } else if page == 2 {
                (sel / 16) % 4
            } else {
                (sel / 64) % 4
            };
            if sub_slot == 0 && addr >= 0x4000 {
                let off = (addr - 0x4000) as usize;
                if off < self.cart.len() {
                    return self.cart[off];
                }
            }
            0xFF
        } else if slot == 3 {
            self.ram[addr as usize]
        } else {
            0xFF
        }
    }

    /// A bus with empty RAM, no ROMs, all pages on slot 0.
    pub fn new() -> (b: Self)
        ensures
            b.ram@ == Seq::new(65536, |i: int| 0u8),
            b.bios@.len() == 0,
            b.sub_rom@.len() == 0,
            b.cart@.len() == 0,
            b.slot_select == 0,
            b.sub_slot_select@ == seq![0u8, 0u8, 0u8, 0u8],
            b.psg.wf(),
    {
        let b = Bus {
            ram: Box::new([0u8; 65536]),
            bios: Vec::new(),
            sub_rom: Vec::new(),
            cart: Vec::new(),
            slot_select: 0,
            sub_slot_select: [0; 4],
            vdp: Vdp::new(),
            psg: Psg::new(),
            ppi: Ppi::new(),
            keyboard: Keyboard::new(),
        };
        assert(b.ram@ =~= Seq::new(65536, |i: int| 0u8));
        assert(b.sub_slot_select@ =~= seq![0u8, 0u8, 0u8, 0u8]);
        b
    }

    /// Installs the BIOS image. A BIOS whose boot code waits 120 frames
    /// (`LD B,0x78` at 0x0DD3) is patched to wait one.
    pub fn load_bios(&mut self, data: &[u8])
        ensures
            final(self).bios@ == patched_bios(data@),
            final(self).sub_rom@ == old(self).sub_rom@,
            final(self).cart@ == old(self).cart@,
    {
        let mut bios = copy_bytes(data);
        if bios.len() > 0x0DD4 && bios[0x0DD3] == 0x06 && bios[0x0DD4] == 0x78 {
            bios[0x0DD4] = 0x01;
        }
        self.bios = bios;
    }

    /// Installs the sub-ROM image (slot 0, from 0x4000).
    pub fn load_sub_rom(&mut self, data: &[u8])
        ensures
            final(self).sub_rom@ == data@,
            final(self).bios@ == old(self).bios@,
            final(self).cart@ == old(self).cart@,
    {
        self.sub_rom = copy_bytes(data);
    }

    /// Inserts a cartridge image (slot 1, from 0x4000).
    pub fn load_rom(&mut self, data: &[u8])
        ensures
            final(self).cart@ == data@,
            final(self).bios@ == old(self).bios@,
            final(self).sub_rom@ == old(self).sub_rom@,
    {
        self.cart = copy_bytes(data);
    }
}

/// A BIOS image as installed: the 120-frame boot wait shortened to one.
pub open spec fn patched_bios(data: Seq<u8>) -> Seq<u8> {
    if data.len() > 0x0DD4 && data[0x0DD3] == 0x06 && data[0x0DD4] == 0x78 {
        data.update(0x0DD4, 0x01)
    } else {
        data
    }
}

fn copy_bytes(data: &[u8]) -> (r: Vec<u8>)
    ensures
        r@ == data@,
{
    let mut v: Vec<u8> = Vec::new();
    let mut i: usize = 0;
    while i < data.len()
        invariant
            i <= data@.len(),
            v@ == data@.subrange(0, i as int),
        decreases data@.len() - i,
    {
        v.push(data[i]);
        i = i + 1;
        assert(v@ =~= data@.subrange(0, i as int));
    }
    assert(v@ =~= data@);
    v
}

/// A write to RAM through slot 3 is read back, as long as the page is
/// still mapped to slot 3 and the address is not the sub-slot register.
pub proof fn lemma_ram_write_read(s: BusView, addr: u16, val: u8)
    requires
        s.ram.len() == 65536,
        slot_of(s, addr) == 3,
        addr != 0xFFFF,
    ensures
        bus_mem_read(bus_mem_write(s, addr, val), addr) == val,
{
}

/// ROM is read-only: a write to a page mapped to slot 0, 1 or 2 changes
/// nothing, except at the sub-slot register address.
pub proof fn lemma_rom_write_ignored(s: BusView, addr: u16, val: u8)
    requires
        slot_of(s, addr) != 3,
        addr != 0xFFFF,
    ensures
        bus_mem_write(s, addr, val) == s,
{
}

} // verus!
