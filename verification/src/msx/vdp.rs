//! TMS9918-style video display processor: VRAM access through the data and
//! control ports, registers, status and interrupt, and frame rendering.
use vstd::prelude::*;

verus! {

/// The 16 colours of the palette as red, green, blue (colour 0, transparent,
/// shows as black).
pub const PALETTE: [(u8, u8, u8); 16] = [
    (0, 0, 0),
    (0, 0, 0),
    (33, 200, 66),
    (94, 220, 120),
    (84, 85, 237),
    (125, 118, 252),
    (212, 82, 77),
    (66, 235, 245),
    (252, 85, 84),
    (255, 121, 120),
    (212, 193, 84),
    (230, 206, 128),
    (33, 176, 59),
    (201, 91, 186),
    (204, 204, 204),
    (255, 255, 255),
];

/// Bytes of one rendered frame: 256 by 192 pixels, four bytes (red, green,
/// blue, alpha) each.
pub const FRAME_BYTES: usize = 196608;

pub struct Vdp {
    pub vram: Box<[u8; 16384]>,
    pub regs: [u8; 8],
    pub status: u8,
    pub addr: u16,
    pub addr_latch: bool,
    pub latch_byte: u8,
    pub read_buf: u8,
    pub int_pending: bool,
    pub line: u32,
    pub cycles: u32,
}

/// The VDP as a mathematical value.
pub struct VdpView {
    pub vram: Seq<u8>,
    pub regs: Seq<u8>,
    pub status: u8,
    pub addr: u16,
    pub addr_latch: bool,
    pub latch_byte: u8,
    pub read_buf: u8,
    pub int_pending: bool,
    pub line: u32,
    pub cycles: u32,
}

impl View for Vdp {
    type V = VdpView;

    open spec fn view(&self) -> VdpView {
        VdpView {
            vram: self.vram@,
            regs: self.regs@,
            status: self.status,
            addr: self.addr,
            addr_latch: self.addr_latch,
            latch_byte: self.latch_byte,
            read_buf: self.read_buf,
            int_pending: self.int_pending,
            line: self.line,
            cycles: self.cycles,
        }
    }
}

/// The VRAM address after `a` (14 bits, wrapping).
pub open spec fn next_addr(a: u16) -> u16 {
    ((a as int + 1) % 0x4000) as u16
}

/// The VRAM index an address selects.
pub open spec fn vram_index(a: u16) -> int {
    a as int % 0x4000
}

pub open spec fn spec_write_data(v: VdpView, val: u8) -> VdpView {
    VdpView {
        vram: v.vram.update(vram_index(v.addr), val),
        read_buf: val,
        addr: next_addr(v.addr),
        addr_latch: false,
        ..v
    }
}

pub open spec fn spec_write_ctrl(v: VdpView, val: u8) -> VdpView {
    if !v.addr_latch {
        VdpView { latch_byte: val, addr_latch: true, ..v }
    } else if val < 0x80 {
        let a = ((val as int % 64) * 256 + v.latch_byte as int) as u16;
        if val % 128 < 0x40 {
            // address set for reading: prefetch the byte at the address
            VdpView { addr_latch: false, read_buf: v.vram[vram_index(a)], addr: next_addr(a), ..v }
        } else {
            VdpView { addr_latch: false, addr: a, ..v }
        }
    } else {
        VdpView { addr_latch: false, regs: v.regs.update(val as int % 8, v.latch_byte), ..v }
    }
}

pub open spec fn spec_read_data(v: VdpView) -> (VdpView, u8) {
    (VdpView { read_buf: v.vram[vram_index(v.addr)], addr: next_addr(v.addr), addr_latch: false, ..v }, v.read_buf)
}

pub open spec fn spec_read_status(v: VdpView) -> (VdpView, u8) {
    (VdpView { status: v.status & 0x1F, int_pending: false, addr_latch: false, ..v }, v.status)
}

/// The screen mode the mode bits select: 0 text, 1 graphic 1, 2 graphic 2, 3 multicolor.
pub open spec fn spec_screen_mode(regs: Seq<u8>) -> u8 {
    let m1 = (regs[1] / 16) % 2;
    let m2 = (regs[1] / 8) % 2;
    let m3 = (regs[0] / 2) % 2;
    if m1 == 1 { 0 } else if m3 == 1 { 2 } else if m2 == 1 { 3 } else { 1 }
}

impl Vdp {
    pub fn new() -> (v: Vdp)
        ensures
            v@.vram == Seq::new(16384, |i: int| 0u8),
            v@.regs == Seq::new(8, |i: int| 0u8),
            v.status == 0,
            v.addr == 0,
            !v.addr_latch,
            v.latch_byte == 0,
            v.read_buf == 0,
            !v.int_pending,
            v.line == 0,
            v.cycles == 0,
    {
        let v = Vdp {
            vram: Box::new([0u8; 16384]),
            regs: [0u8; 8],
            status: 0,
            addr: 0,
            addr_latch: false,
            latch_byte: 0,
            read_buf: 0,
            int_pending: false,
            line: 0,
            cycles: 0,
        };
        assert(v@.vram =~= Seq::new(16384, |i: int| 0u8));
        assert(v@.regs =~= Seq::new(8, |i: int| 0u8));
        v
    }

    /// Write a byte to VRAM at the current address (port 0x98).
    pub fn write_data(&mut self, val: u8)
        ensures
            final(self)@ == spec_write_data(old(self)@, val),
    {
        let i = (self.addr & 0x3FFF) as usize;
        proof {
            lemma_mask14(self.addr);
        }
        self.vram[i] = val;
        self.read_buf = val;
        self.addr = next_vram_addr(self.addr);
        self.addr_latch = false;
    }

    /// Write to the control port (0x99): two bytes set the address or a register.
    pub fn write_ctrl(&mut self, val: u8)
        ensures
            final(self)@ == spec_write_ctrl(old(self)@, val),
    {
        if !self.addr_latch {
            self.latch_byte = val;
            self.addr_latch = true;
        } else {
            self.addr_latch = false;
            if val & 0x80 == 0 {
                proof {
                    lemma_ctrl_bits(val);
                }
                self.addr = ((val & 0x3F) as u16) * 256 + self.latch_byte as u16;
                if val & 0x40 == 0 {
                    let i = (self.addr & 0x3FFF) as usize;
                    proof {
                        lemma_mask14(self.addr);
                    }
                    self.read_buf = self.vram[i];
                    self.addr = next_vram_addr(self.addr);
                }
            } else {
                proof {
                    lemma_ctrl_bits(val);
                }
                let reg = (val & 0x07) as usize;
                self.regs[reg] = self.latch_byte;
            }
        }
    }

    /// Read a byte from VRAM through the read-ahead buffer (port 0x98).
    pub fn read_data(&mut self) -> (r: u8)
        ensures
            (final(self)@, r) == spec_read_data(old(self)@),
    {
        let v = self.read_buf;
        let i = (self.addr & 0x3FFF) as usize;
        proof {
            lemma_mask14(self.addr);
        }
        self.read_buf = self.vram[i];
        self.addr = next_vram_addr(self.addr);
        self.addr_latch = false;
        v
    }

    /// Read the status register (port 0x99); clears the frame and interrupt flags.
    pub fn read_status(&mut self) -> (r: u8)
        ensures
            (final(self)@, r) == spec_read_status(old(self)@),
    {
        let s = self.status;
        self.status = self.status & 0x1F;
        self.int_pending = false;
        self.addr_latch = false;
        s
    }

    /// Take a pending interrupt if the interrupt-enable bit (R1 bit 5) is set.
    pub fn take_interrupt(&mut self) -> (taken: bool)
        ensures
            taken == (old(self).int_pending && old(self).regs[1] & 0x20 != 0),
            final(self)@ == (if taken { VdpView { int_pending: false, ..old(self)@ } } else { old(self)@ }),
    {
        if self.int_pending && (self.regs[1] & 0x20 != 0) {
            self.int_pending = false;
            true
        } else {
            false
        }
    }

    fn screen_mode(&self) -> (m: u8)
        ensures
            m == spec_screen_mode(self.regs@),
    {
        let m1 = (self.regs[1] / 16) % 2;
        let m2 = (self.regs[1] / 8) % 2;
        let m3 = (self.regs[0] / 2) % 2;
        if m1 == 1 {
            0
        } else if m3 == 1 {
            2
        } else if m2 == 1 {
            3
        } else {
            1
        }
    }
}

proof fn lemma_mask14(a: u16)
    ensures
        (a & 0x3FFF) as int == a as int % 0x4000,
{
    assert((a & 0x3FFF) as int == a as int % 0x4000) by (bit_vector);
}

proof fn lemma_ctrl_bits(v: u8)
    ensures
        (v & 0x80 == 0) == (v < 0x80),
        (v & 0x40 == 0) == (v % 128 < 0x40),
        (v & 0x3F) as int == v as int % 64,
        (v & 0x07) as int == v as int % 8,
{
    assert((v & 0x80 == 0) == (v < 0x80)) by (bit_vector);
    assert((v & 0x40 == 0) == (v % 128 < 0x40)) by (bit_vector);
    assert((v & 0x3F) as int == v as int % 64) by (bit_vector);
    assert((v & 0x07) as int == v as int % 8) by (bit_vector);
}

/// The VRAM address after `a`, wrapping in 14 bits.
fn next_vram_addr(a: u16) -> (r: u16)
    ensures
        r == next_addr(a),
{
    let m = a & 0x3FFF;
    assert(m <= 0x3FFF) by (bit_vector)
        requires m == a & 0x3FFF;
    let r = (m + 1) & 0x3FFF;
    assert(r as int == (a as int + 1) % 0x4000) by (bit_vector)
        requires
            m == a & 0x3FFF,
            r == ((m + 1) as u16) & 0x3FFF;
    r
}


pub open spec fn pal(i: int) -> (u8, u8, u8) {
    PALETTE@[i]
}

/// Colour 0 shows as colour 1 on the background layers.
pub open spec fn nz(i: int) -> int {
    if i == 0 {
        1
    } else {
        i
    }
}

pub open spec fn vr(v: VdpView, a: int) -> u8 {
    v.vram[a % 16384]
}

/// Pixel `bit` (0 the leftmost) of a pattern byte is set.
pub open spec fn bit_on(pat: u8, bit: int) -> bool {
    pat & (0x80u8 >> (bit as u8)) != 0
}

pub open spec fn name_base(regs: Seq<u8>) -> int {
    (regs[2] % 16) * 1024
}

pub open spec fn pat_base(regs: Seq<u8>) -> int {
    (regs[4] % 8) * 2048
}

/// The display is on (register 1, bit 6).
pub open spec fn display_on(regs: Seq<u8>) -> bool {
    (regs[1] / 64) % 2 == 1
}

/// Text mode: 40 columns of 6-pixel characters; the right 16 pixels show
/// the background colour.
pub open spec fn text_pixel(v: VdpView, px: int, py: int) -> (u8, u8, u8) {
    let bg = pal(nz((v.regs[7] % 16) as int));
    if px >= 240 {
        bg
    } else {
        let ch = vr(v, name_base(v.regs) + (py / 8) * 40 + px / 6);
        let pat = vr(v, pat_base(v.regs) + ch * 8 + py % 8);
        if bit_on(pat, px % 6) {
            pal(nz((v.regs[7] / 16) as int))
        } else {
            bg
        }
    }
}

/// Graphic 1: 32 by 24 characters of 8 by 8 pixels, two colours per group
/// of eight characters.
pub open spec fn g1_pixel(v: VdpView, px: int, py: int) -> (u8, u8, u8) {
    let ch = vr(v, name_base(v.regs) + (py / 8) * 32 + px / 8);
    let cb = vr(v, v.regs[3] * 64 + ch / 8);
    let pat = vr(v, pat_base(v.regs) + ch * 8 + py % 8);
    if bit_on(pat, px % 8) {
        pal(nz((cb / 16) as int))
    } else {
        pal(nz((cb % 16) as int))
    }
}

/// Graphic 2: the screen in three thirds, each with its own patterns and
/// colours, two colours per pattern line.
pub open spec fn g2_pixel(v: VdpView, px: int, py: int) -> (u8, u8, u8) {
    let row = py / 8;
    let ch = vr(v, name_base(v.regs) + row * 32 + px / 8);
    let off = (row / 8) * 2048 + ch * 8 + py % 8;
    let pat = vr(v, ((v.regs[4] / 4) % 2) * 8192 + off);
    let color = vr(v, (v.regs[3] / 128) * 8192 + off);
    if bit_on(pat, px % 8) {
        pal(nz((color / 16) as int))
    } else {
        pal(nz((color % 16) as int))
    }
}

/// Multicolour: each character cell shows blocks of 4 by 4 pixels, two
/// per pattern byte.
pub open spec fn mc_pixel(v: VdpView, px: int, py: int) -> (u8, u8, u8) {
    let row = py / 8;
    let ch = vr(v, name_base(v.regs) + row * 32 + px / 8);
    let pat = vr(v, pat_base(v.regs) + ch * 8 + (row / 4) * 2 + (py % 8) / 4);
    let ci = if px % 8 < 4 {
        pat / 16
    } else {
        pat % 16
    };
    pal(nz(ci as int))
}

pub open spec fn sat_base(regs: Seq<u8>) -> int {
    (regs[5] % 128) * 128
}

pub open spec fn spr_byte(v: VdpView, s: int, k: int) -> u8 {
    vr(v, sat_base(v.regs) + s * 4 + k)
}

/// Sprites are 16 by 16 (register 1, bit 1), else 8 by 8.
pub open spec fn spr_size(regs: Seq<u8>) -> int {
    if (regs[1] / 2) % 2 == 1 {
        16
    } else {
        8
    }
}

/// Sprites are drawn at double size (register 1, bit 0).
pub open spec fn spr_scale(regs: Seq<u8>) -> int {
    if regs[1] % 2 == 1 {
        2
    } else {
        1
    }
}

/// Sprite `s` comes before the first one whose y is 208, which ends the
/// table.
pub open spec fn sprite_active(v: VdpView, s: int) -> bool {
    0 <= s < 32 && forall|t: int| 0 <= t <= s ==> #[trigger] spr_byte(v, t, 0) != 208
}

pub open spec fn spr_y(v: VdpView, s: int) -> int {
    spr_byte(v, s, 0) + 1
}

pub open spec fn spr_x(v: VdpView, s: int) -> int {
    spr_byte(v, s, 1) - if spr_byte(v, s, 3) >= 128 {
        32int
    } else {
        0int
    }
}

/// Sprite `s` spans screen line `dy`.
pub open spec fn covers(v: VdpView, s: int, dy: int) -> bool {
    &&& 0 <= dy < 192
    &&& spr_y(v, s) <= dy < spr_y(v, s) + spr_size(v.regs) * spr_scale(v.regs)
}

/// Sprite `s` is drawn on line `dy`: fewer than four earlier sprites are.
pub open spec fn sprite_drawn(v: VdpView, s: int, dy: int) -> bool
    decreases s, 1int,
{
    sprite_active(v, s) && covers(v, s, dy) && (if s <= 0 {
        true
    } else {
        drawn_before_inner(v, s, dy) < 4
    })
}

/// How many of the sprites before `s` are drawn on line `dy`.
pub open spec fn drawn_before_inner(v: VdpView, s: int, dy: int) -> nat
    decreases s, 0int,
{
    if s <= 0 {
        0
    } else {
        drawn_before_inner(v, s - 1, dy) + if sprite_drawn(v, s - 1, dy) {
            1nat
        } else {
            0nat
        }
    }
}

/// The pattern byte sprite `s` shows on line `dy` (only the left eight
/// pixels of a 16 by 16 sprite are drawn).
pub open spec fn spr_pattern(v: VdpView, s: int, dy: int) -> u8 {
    let pattern = spr_byte(v, s, 2) as int;
    let idx = if spr_size(v.regs) == 16 {
        pattern - pattern % 4
    } else {
        pattern
    };
    let row = (dy - spr_y(v, s)) / spr_scale(v.regs);
    vr(v, (v.regs[6] % 8) * 2048 + idx * 8 + row)
}

/// Sprite `s` paints pixel (px, dy).
pub open spec fn sprite_paints(v: VdpView, s: int, px: int, dy: int) -> bool {
    let rel = px - spr_x(v, s);
    &&& sprite_drawn(v, s, dy)
    &&& spr_byte(v, s, 3) % 16 != 0
    &&& 0 <= px < 256
    &&& 0 <= rel < 8 * spr_scale(v.regs)
    &&& bit_on(spr_pattern(v, s, dy), rel / spr_scale(v.regs))
}

/// The pixel with sprites 0 to n-1 laid over the background; later
/// sprites cover earlier ones.
pub open spec fn with_sprites(v: VdpView, n: int, px: int, py: int, bg: (u8, u8, u8)) -> (u8, u8, u8)
    decreases n,
{
    if n <= 0 {
        bg
    } else if sprite_paints(v, n - 1, px, py) {
        pal((spr_byte(v, n - 1, 3) % 16) as int)
    } else {
        with_sprites(v, n - 1, px, py, bg)
    }
}

/// The colour of pixel (px, py) of a rendered frame.
pub open spec fn frame_pixel(v: VdpView, px: int, py: int) -> (u8, u8, u8) {
    if !display_on(v.regs) {
        pal((v.regs[7] % 16) as int)
    } else {
        let mode = spec_screen_mode(v.regs);
        if mode == 0 {
            text_pixel(v, px, py)
        } else if mode == 2 {
            with_sprites(v, 32, px, py, g2_pixel(v, px, py))
        } else if mode == 3 {
            with_sprites(v, 32, px, py, mc_pixel(v, px, py))
        } else {
            with_sprites(v, 32, px, py, g1_pixel(v, px, py))
        }
    }
}

/// The four bytes of pixel `q` (row-major) in a frame buffer.
pub open spec fn pixel_bytes_are(out: Seq<u8>, q: int, c: (u8, u8, u8)) -> bool {
    &&& out[4 * q] == c.0
    &&& out[4 * q + 1] == c.1
    &&& out[4 * q + 2] == c.2
    &&& out[4 * q + 3] == 255
}

impl Vdp {
    fn vram_at(&self, a: usize) -> (r: u8)
        ensures
            r == vr(self@, a as int),
    {
        self.vram[a % 16384]
    }

    fn text_rgb(&self, px: usize, py: usize) -> (c: (u8, u8, u8))
        requires
            px < 256,
            py < 192,
        ensures
            c == text_pixel(self@, px as int, py as int),
    {
        let bg = PALETTE[nz_exec((self.regs[7] % 16) as usize)];
        if px >= 240 {
            bg
        } else {
            let nb = ((self.regs[2] % 16) as usize) * 1024;
            let ch = self.vram_at(nb + (py / 8) * 40 + px / 6) as usize;
            let pat = self.vram_at(((self.regs[4] % 8) as usize) * 2048 + ch * 8 + py % 8);
            if pat & (0x80u8 >> ((px % 6) as u8)) != 0 {
                PALETTE[nz_exec((self.regs[7] / 16) as usize)]
            } else {
                bg
            }
        }
    }

    fn g1_rgb(&self, px: usize, py: usize) -> (c: (u8, u8, u8))
        requires
            px < 256,
            py < 192,
        ensures
            c == g1_pixel(self@, px as int, py as int),
    {
        let nb = ((self.regs[2] % 16) as usize) * 1024;
        let ch = self.vram_at(nb + (py / 8) * 32 + px / 8) as usize;
        let cb = self.vram_at((self.regs[3] as usize) * 64 + ch / 8);
        let pat = self.vram_at(((self.regs[4] % 8) as usize) * 2048 + ch * 8 + py % 8);
        if pat & (0x80u8 >> ((px % 8) as u8)) != 0 {
            PALETTE[nz_exec((cb / 16) as usize)]
        } else {
            PALETTE[nz_exec((cb % 16) as usize)]
        }
    }

    fn g2_rgb(&self, px: usize, py: usize) -> (c: (u8, u8, u8))
        requires
            px < 256,
            py < 192,
        ensures
            c == g2_pixel(self@, px as int, py as int),
    {
        let row = py / 8;
        let nb = ((self.regs[2] % 16) as usize) * 1024;
        let ch = self.vram_at(nb + row * 32 + px / 8) as usize;
        let off = (row / 8) * 2048 + ch * 8 + py % 8;
        let pat = self.vram_at((((self.regs[4] / 4) % 2) as usize) * 8192 + off);
        let color = self.vram_at(((self.regs[3] / 128) as usize) * 8192 + off);
        if pat & (0x80u8 >> ((px % 8) as u8)) != 0 {
            PALETTE[nz_exec((color / 16) as usize)]
        } else {
            PALETTE[nz_exec((color % 16) as usize)]
        }
    }

    fn mc_rgb(&self, px: usize, py: usize) -> (c: (u8, u8, u8))
        requires
            px < 256,
            py < 192,
        ensures
            c == mc_pixel(self@, px as int, py as int),
    {
        let row = py / 8;
        let nb = ((self.regs[2] % 16) as usize) * 1024;
        let ch = self.vram_at(nb + row * 32 + px / 8) as usize;
        let pat = self.vram_at(((self.regs[4] % 8) as usize) * 2048 + ch * 8 + (row / 4) * 2 + (py % 8) / 4);
        let ci = if px % 8 < 4 {
            pat / 16
        } else {
            pat % 16
        };
        PALETTE[nz_exec(ci as usize)]
    }
}

impl Vdp {
    /// Which sprites are drawn on which lines: entry `s * 192 + dy` for
    /// sprite `s` and line `dy`.
    fn sprite_table(&self) -> (tab: Vec<bool>)
        ensures
            tab@.len() == 32 * 192,
            forall|s: int, dy: int|
                0 <= s < 32 && 0 <= dy < 192 ==> #[trigger] tab@[s * 192 + dy] == sprite_drawn(self@, s, dy),
    {
        let mut cnt: [u8; 192] = [0u8; 192];
        let mut tab: Vec<bool> = Vec::new();
        let mut active = true;
        let sat = ((self.regs[5] % 128) as usize) * 128;
        let size: usize = if (self.regs[1] / 2) % 2 == 1 {
            16
        } else {
            8
        };
        let scale: usize = if self.regs[1] % 2 == 1 {
            2
        } else {
            1
        };
        let mut s: usize = 0;
        while s < 32
            invariant
                s <= 32,
                sat == sat_base(self@.regs),
                size == spr_size(self@.regs),
                scale == spr_scale(self@.regs),
                tab@.len() == s * 192,
                active == (s == 0 || sprite_active(self@, s - 1)),
                forall|dy: int| 0 <= dy < 192 ==> #[trigger] cnt@[dy] == drawn_before_inner(self@, s as int, dy),
                forall|dy: int| 0 <= dy < 192 ==> #[trigger] cnt@[dy] <= 4,
                forall|t: int, dy: int|
                    0 <= t < s && 0 <= dy < 192 ==> #[trigger] tab@[t * 192 + dy] == sprite_drawn(self@, t, dy),
            decreases 32 - s,
        {
            let yraw = self.vram_at(sat + s * 4);
            proof {
                assert(spr_byte(self@, s as int, 0) == yraw);
                if s > 0 {
                    assert(sprite_active(self@, s as int) == (sprite_active(self@, s - 1) && yraw != 208)) by {
                        if sprite_active(self@, s - 1) && yraw != 208 {
                            assert forall|t: int| 0 <= t <= s implies #[trigger] spr_byte(self@, t, 0) != 208 by {
                                if t < s {
                                    assert(0 <= t <= s - 1);
                                }
                            }
                        }
                    }
                }
            }
            active = active && yraw != 208;
            let y = yraw as usize + 1;
            let ghost cnt0 = cnt@;
            let ghost tab0 = tab@;
            let mut dy: usize = 0;
            while dy < 192
                invariant
                    s < 32,
                    dy <= 192,
                    sat == sat_base(self@.regs),
                    size == spr_size(self@.regs),
                    scale == spr_scale(self@.regs),
                    y == spr_y(self@, s as int),
                    active == sprite_active(self@, s as int),
                    tab@.len() == s * 192 + dy,
                    tab@.subrange(0, s * 192) == tab0.subrange(0, s * 192),
                    tab0.len() == s * 192,
                    forall|d: int| 0 <= d < 192 ==> #[trigger] cnt0[d] == drawn_before_inner(self@, s as int, d),
                    forall|d: int| 0 <= d < 192 ==> #[trigger] cnt@[d] <= 4,
                    forall|d: int| dy <= d < 192 ==> #[trigger] cnt@[d] == cnt0[d],
                    forall|d: int| 0 <= d < dy ==> #[trigger] cnt@[d] == drawn_before_inner(self@, s + 1, d),
                    forall|d: int| 0 <= d < dy ==> #[trigger] tab@[s * 192 + d] == sprite_drawn(self@, s as int, d),
                decreases 192 - dy,
            {
                let cov = active && y <= dy && dy < y + size * scale;
                let d = cov && cnt[dy] < 4;
                proof {
                    assert(d == sprite_drawn(self@, s as int, dy as int));
                    assert(drawn_before_inner(self@, s + 1, dy as int) == drawn_before_inner(self@, s as int, dy as int) + if sprite_drawn(self@, s as int, dy as int) { 1nat } else { 0nat });
                }
                tab.push(d);
                if d {
                    cnt[dy] = cnt[dy] + 1;
                }
                dy = dy + 1;
            }
            proof {
                assert forall|t: int, d: int| 0 <= t < s + 1 && 0 <= d < 192 implies #[trigger] tab@[t * 192 + d] == sprite_drawn(self@, t, d) by {
                    if t < s {
                        assert(t * 192 + d < s * 192) by (nonlinear_arith)
                            requires t < s, d < 192;
                        assert(tab@[t * 192 + d] == tab@.subrange(0, s * 192)[t * 192 + d]);
                        assert(tab0[t * 192 + d] == tab0.subrange(0, s * 192)[t * 192 + d]);
                    }
                }
                assert((s + 1) * 192 == s * 192 + 192) by (nonlinear_arith);
            }
            s = s + 1;
        }
        tab
    }

    /// Whether sprite `s` paints pixel (px, py), given the sprite table.
    fn sprite_paints_exec(&self, tab: &Vec<bool>, s: usize, px: usize, py: usize) -> (r: bool)
        requires
            s < 32,
            px < 256,
            py < 192,
            tab@.len() == 32 * 192,
            forall|t: int, dy: int|
                0 <= t < 32 && 0 <= dy < 192 ==> #[trigger] tab@[t * 192 + dy] == sprite_drawn(self@, t, dy),
        ensures
            r == sprite_paints(self@, s as int, px as int, py as int),
    {
        let sat = ((self.regs[5] % 128) as usize) * 128;
        let attr = self.vram_at(sat + s * 4 + 3);
        proof {
            assert(s * 192 + py < 32 * 192) by (nonlinear_arith)
                requires s < 32, py < 192;
            assert(tab@[s * 192 + py] == sprite_drawn(self@, s as int, py as int));
        }
        if !tab[s * 192 + py] || attr % 16 == 0 {
            return false;
        }
        let scale: i32 = if self.regs[1] % 2 == 1 {
            2
        } else {
            1
        };
        let xraw = self.vram_at(sat + s * 4 + 1) as i32;
        let x = xraw - if attr >= 128 {
            32i32
        } else {
            0i32
        };
        let rel = px as i32 - x;
        if rel < 0 || rel >= 8 * scale {
            return false;
        }
        let yraw = self.vram_at(sat + s * 4);
        let y = yraw as usize + 1;
        let row = (py - y) / (scale as usize);
        let pattern = self.vram_at(sat + s * 4 + 2) as usize;
        let idx = if (self.regs[1] / 2) % 2 == 1 {
            pattern - pattern % 4
        } else {
            pattern
        };
        let pb = self.vram_at(((self.regs[6] % 8) as usize) * 2048 + idx * 8 + row);
        pb & (0x80u8 >> ((rel / scale) as u8)) != 0
    }

    /// The pixel with all sprites laid over background colour `bg`.
    fn sprite_rgb(&self, tab: &Vec<bool>, px: usize, py: usize, bg: (u8, u8, u8)) -> (c: (u8, u8, u8))
        requires
            px < 256,
            py < 192,
            tab@.len() == 32 * 192,
            forall|t: int, dy: int|
                0 <= t < 32 && 0 <= dy < 192 ==> #[trigger] tab@[t * 192 + dy] == sprite_drawn(self@, t, dy),
        ensures
            c == with_sprites(self@, 32, px as int, py as int, bg),
    {
        let sat = ((self.regs[5] % 128) as usize) * 128;
        let mut n: usize = 32;
        while n > 0
            invariant
                n <= 32,
                px < 256,
                py < 192,
                sat == sat_base(self@.regs),
                tab@.len() == 32 * 192,
                forall|t: int, dy: int|
                    0 <= t < 32 && 0 <= dy < 192 ==> #[trigger] tab@[t * 192 + dy] == sprite_drawn(self@, t, dy),
                with_sprites(self@, 32, px as int, py as int, bg) == with_sprites(self@, n as int, px as int, py as int, bg),
            decreases n,
        {
            let s = n - 1;
            if self.sprite_paints_exec(tab, s, px, py) {
                let attr = self.vram_at(sat + s * 4 + 3);
                return PALETTE[(attr % 16) as usize];
            }
            n = s;
        }
        bg
    }

    /// Renders the frame into `output` as 256 by 192 pixels of red, green,
    /// blue and alpha, row by row: the background colour when the display
    /// is off, else the screen mode's picture with the sprites over it (no
    /// sprites in text mode).
    pub fn render_frame(&mut self, output: &mut [u8])
        requires
            old(output)@.len() >= FRAME_BYTES,
        ensures
            final(self)@ == old(self)@,
            final(output)@.len() == old(output)@.len(),
            forall|q: int| 0 <= q < 49152 ==> #[trigger] pixel_bytes_are(final(output)@, q, frame_pixel(old(self)@, q % 256, q / 256)),
            forall|i: int| FRAME_BYTES <= i < old(output)@.len() ==> final(output)@[i] == old(output)@[i],
    {
        let on = (self.regs[1] / 64) % 2 == 1;
        let mode = self.screen_mode();
        let tab = if on && mode != 0 {
            self.sprite_table()
        } else {
            Vec::new()
        };
        let mut q: usize = 0;
        while q < 49152
            invariant
                q <= 49152,
                on == display_on(self@.regs),
                mode == spec_screen_mode(self@.regs),
                self@ == old(self)@,
                output@.len() == old(output)@.len(),
                old(output)@.len() >= FRAME_BYTES,
                on && mode != 0 ==> tab@.len() == 32 * 192,
                on && mode != 0 ==> forall|t: int, dy: int|
                    0 <= t < 32 && 0 <= dy < 192 ==> #[trigger] tab@[t * 192 + dy] == sprite_drawn(self@, t, dy),
                forall|p: int| 0 <= p < q ==> #[trigger] pixel_bytes_are(output@, p, frame_pixel(self@, p % 256, p / 256)),
                forall|i: int| 4 * q <= i < output@.len() ==> output@[i] == old(output)@[i],
            decreases 49152 - q,
        {
            let px = q % 256;
            let py = q / 256;
            let c = if !on {
                PALETTE[(self.regs[7] % 16) as usize]
            } else if mode == 0 {
                self.text_rgb(px, py)
            } else if mode == 2 {
                let bg = self.g2_rgb(px, py);
                self.sprite_rgb(&tab, px, py, bg)
            } else if mode == 3 {
                let bg = self.mc_rgb(px, py);
                self.sprite_rgb(&tab, px, py, bg)
            } else {
                let bg = self.g1_rgb(px, py);
                self.sprite_rgb(&tab, px, py, bg)
            };
            proof {
                assert(c == frame_pixel(self@, q as int % 256, q as int / 256));
            }
            let ghost out0 = output@;
            let o = q * 4;
            output[o] = c.0;
            output[o + 1] = c.1;
            output[o + 2] = c.2;
            output[o + 3] = 255;
            proof {
                assert forall|p: int| 0 <= p < q + 1 implies #[trigger] pixel_bytes_are(output@, p, frame_pixel(self@, p % 256, p / 256)) by {
                    if p < q {
                        assert(pixel_bytes_are(out0, p, frame_pixel(self@, p % 256, p / 256)));
                        assert(output@[4 * p] == out0[4 * p]);
                        assert(output@[4 * p + 1] == out0[4 * p + 1]);
                        assert(output@[4 * p + 2] == out0[4 * p + 2]);
                        assert(output@[4 * p + 3] == out0[4 * p + 3]);
                    }
                }
            }
            q = q + 1;
        }
    }
}

/// Laying sprites over a pixel none of them paints leaves the pixel as it was.
proof fn lemma_unpainted(v: VdpView, n: int, px: int, py: int, bg: (u8, u8, u8))
    requires
        n <= 32,
        forall|s: int| 0 <= s < 32 ==> !#[trigger] sprite_paints(v, s, px, py),
    ensures
        with_sprites(v, n, px, py, bg) == bg,
    decreases n,
{
    if n > 0 {
        assert(!sprite_paints(v, n - 1, px, py));
        lemma_unpainted(v, n - 1, px, py, bg);
    }
}

/// Graphic 2 colours: with the display on and the mode bits selecting
/// graphic 2, a pixel that no sprite paints takes its pattern byte and its
/// colour byte from the line `py % 8` of the character the name table holds
/// for its cell, in the third `py / 64` of the tables; it shows the colour
/// of the high nibble of the colour byte (`color >> 4`) when its pattern bit
/// is set and that of the low nibble (`color & 0x0F`) when it is clear,
/// colour 0 showing as colour 1.
pub proof fn lemma_g2_colours(v: VdpView, px: int, py: int)
    requires
        0 <= px < 256,
        0 <= py < 192,
        display_on(v.regs),
        spec_screen_mode(v.regs) == 2,
        forall|s: int| 0 <= s < 32 ==> !#[trigger] sprite_paints(v, s, px, py),
    ensures
        ({
            let ch = vr(v, name_base(v.regs) + (py / 8) * 32 + px / 8);
            let line = (py / 64) * 2048 + ch * 8 + py % 8;
            let pat = vr(v, ((v.regs[4] / 4) % 2) * 8192 + line);
            let color = vr(v, (v.regs[3] / 128) * 8192 + line);
            let shown = frame_pixel(v, px, py);
            &&& pat & (0x80u8 >> ((px % 8) as u8)) != 0 ==> shown == pal(nz((color >> 4u8) as int))
            &&& pat & (0x80u8 >> ((px % 8) as u8)) == 0 ==> shown == pal(nz((color & 0x0Fu8) as int))
        }),
{
    lemma_unpainted(v, 32, px, py, g2_pixel(v, px, py));
    let ch = vr(v, name_base(v.regs) + (py / 8) * 32 + px / 8);
    assert((py / 8) / 8 == py / 64);
    let line = (py / 64) * 2048 + ch * 8 + py % 8;
    let color = vr(v, (v.regs[3] / 128) * 8192 + line);
    assert(color >> 4u8 == color / 16 && color & 0x0Fu8 == color % 16) by (bit_vector);
}

/// Graphic 1 colours: with the display on and the mode bits selecting
/// graphic 1, a pixel that no sprite paints shows, from the colour byte of
/// its character's group of eight (`ch >> 3`), the colour of the high
/// nibble when its pattern bit is set and that of the low nibble when it is
/// clear, colour 0 showing as colour 1.
pub proof fn lemma_g1_colours(v: VdpView, px: int, py: int)
    requires
        0 <= px < 256,
        0 <= py < 192,
        display_on(v.regs),
        spec_screen_mode(v.regs) == 1,
        forall|s: int| 0 <= s < 32 ==> !#[trigger] sprite_paints(v, s, px, py),
    ensures
        ({
            let ch = vr(v, name_base(v.regs) + (py / 8) * 32 + px / 8);
            let pat = vr(v, pat_base(v.regs) + ch * 8 + py % 8);
            let color = vr(v, v.regs[3] * 64 + (ch >> 3u8));
            let shown = frame_pixel(v, px, py);
            &&& pat & (0x80u8 >> ((px % 8) as u8)) != 0 ==> shown == pal(nz((color >> 4u8) as int))
            &&& pat & (0x80u8 >> ((px % 8) as u8)) == 0 ==> shown == pal(nz((color & 0x0Fu8) as int))
        }),
{
    lemma_unpainted(v, 32, px, py, g1_pixel(v, px, py));
    let ch = vr(v, name_base(v.regs) + (py / 8) * 32 + px / 8);
    assert(ch >> 3u8 == ch / 8) by (bit_vector);
    let color = vr(v, v.regs[3] * 64 + (ch >> 3u8));
    assert(color >> 4u8 == color / 16 && color & 0x0Fu8 == color % 16) by (bit_vector);
}

/// Text mode colours: with the display on and text mode selected, the
/// 6-pixel-wide character cells show the colour of the high nibble of
/// register 7 where the pattern bit is set and that of the low nibble
/// elsewhere, as do the 16 columns right of the text; colour 0 shows as
/// colour 1.
pub proof fn lemma_text_colours(v: VdpView, px: int, py: int)
    requires
        0 <= px < 256,
        0 <= py < 192,
        display_on(v.regs),
        spec_screen_mode(v.regs) == 0,
    ensures
        ({
            let fg = pal(nz((v.regs[7] >> 4u8) as int));
            let bg = pal(nz((v.regs[7] & 0x0Fu8) as int));
            let ch = vr(v, name_base(v.regs) + (py / 8) * 40 + px / 6);
            let pat = vr(v, pat_base(v.regs) + ch * 8 + py % 8);
            let shown = frame_pixel(v, px, py);
            &&& px >= 240 ==> shown == bg
            &&& px < 240 && pat & (0x80u8 >> ((px % 6) as u8)) != 0 ==> shown == fg
            &&& px < 240 && pat & (0x80u8 >> ((px % 6) as u8)) == 0 ==> shown == bg
        }),
{
    let r7 = v.regs[7];
    assert(r7 >> 4u8 == r7 / 16 && r7 & 0x0Fu8 == r7 % 16) by (bit_vector);
}

/// Multicolour: with the display on and multicolour selected, a pixel that
/// no sprite paints shows the colour of the high nibble of its pattern
/// byte in the left half of its character cell and that of the low nibble
/// in the right half; of the character's eight pattern bytes it reads
/// byte `(row / 4) * 2 + (py % 8) / 4`, with `row = py / 8`.
pub proof fn lemma_mc_colours(v: VdpView, px: int, py: int)
    requires
        0 <= px < 256,
        0 <= py < 192,
        display_on(v.regs),
        spec_screen_mode(v.regs) == 3,
        forall|s: int| 0 <= s < 32 ==> !#[trigger] sprite_paints(v, s, px, py),
    ensures
        ({
            let ch = vr(v, name_base(v.regs) + (py / 8) * 32 + px / 8);
            let pat = vr(v, pat_base(v.regs) + ch * 8 + ((py / 8) / 4) * 2 + (py % 8) / 4);
            let shown = frame_pixel(v, px, py);
            &&& px % 8 < 4 ==> shown == pal(nz((pat >> 4u8) as int))
            &&& px % 8 >= 4 ==> shown == pal(nz((pat & 0x0Fu8) as int))
        }),
{
    lemma_unpainted(v, 32, px, py, mc_pixel(v, px, py));
    let row = py / 8;
    let ch = vr(v, name_base(v.regs) + row * 32 + px / 8);
    let pat = vr(v, pat_base(v.regs) + ch * 8 + (row / 4) * 2 + (py % 8) / 4);
    assert(pat >> 4u8 == pat / 16 && pat & 0x0Fu8 == pat % 16) by (bit_vector);
}

fn nz_exec(i: usize) -> (r: usize)
    requires
        i < 16,
    ensures
        r == nz(i as int),
        r < 16,
{
    if i == 0 {
        1
    } else {
        i
    }
}
} // verus!
