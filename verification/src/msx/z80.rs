//! Z80 CPU core: registers, ALU, and the instruction decoder.
//!
//! Every instruction is proved to act exactly as the model in `z80_spec`
//! describes, with the bus reached through the `BusAccess` model.
use vstd::prelude::*;
use crate::msx::z80_spec::{w8, w16, pair, hi_byte, lo_byte, sext, sign8, sign16, bit5, bit3, bool_int, popcount, even_parity, flags, flag_set, szyxp, alu_add, alu_sub, alu_cp, alu_and, alu_or, alu_xor, alu_inc, alu_dec, alu_add16, alu_adc16, alu_sbc16, shift_op, alu_shift, alu_bit, acc_rotate, alu_daa, next_r, bc, de, hl, af, with_bc, with_de, with_hl, with_af, tick, reg, with_reg, rp, with_rp, cond, alu_op, s_read, s_write, s_fetch, s_fetch16, s_read16, s_write16, s_push16, s_pop16, s_call, s_nmi, s_interrupt, s_x0_z0, s_x0_z1, s_x0_z2, s_x0_z3, s_x0_incdec, s_x0_z6, s_x0_z7, s_x0, s_x1, s_x2, s_ret_cc, s_x3_z1, s_jp_cc, s_call_cc, s_push_rr, s_alu_n, s_rst, s_x3_z3, s_cb_writeback, s_cb, xy, with_xy, with_xyh, with_xyl, xy_addr, s_xy_mem, xy_uses_mem, s_xy_ld8, xy_is_ld8, s_xy, s_xy_cb, ld_block_flags, cp_block_flags, io_block_flags, s_ld_block, s_cp_block, s_in_block, s_out_block, s_ed_x1, s_ed_op, s_x3, s_step};

verus! {

pub const FLAG_S: u8 = 0x80;
pub const FLAG_Z: u8 = 0x40;
pub const FLAG_Y: u8 = 0x20;
pub const FLAG_H: u8 = 0x10;
pub const FLAG_X: u8 = 0x08;
pub const FLAG_PV: u8 = 0x04;
pub const FLAG_N: u8 = 0x02;
pub const FLAG_C: u8 = 0x01;

/// Memory and I/O as the CPU sees them. An implementation gives each
/// access a model: the state it leaves and the value it returns, as a
/// function of the state before.
pub trait BusAccess {
    type BusState;

    /// The part of the bus state that no memory or I/O access changes.
    type Unaffected;

    spec fn state(&self) -> Self::BusState;

    spec fn unaffected(s: Self::BusState) -> Self::Unaffected;

    spec fn spec_mem_read(s: Self::BusState, addr: u16) -> (Self::BusState, u8);

    spec fn spec_mem_write(s: Self::BusState, addr: u16, val: u8) -> Self::BusState;

    spec fn spec_io_read(s: Self::BusState, port: u16) -> (Self::BusState, u8);

    spec fn spec_io_write(s: Self::BusState, port: u16, val: u8) -> Self::BusState;

    fn mem_read(&mut self, addr: u16) -> (v: u8)
        ensures
            Self::unaffected(final(self).state()) == Self::unaffected(old(self).state()),
            (final(self).state(), v) == Self::spec_mem_read(old(self).state(), addr),
    ;

    fn mem_write(&mut self, addr: u16, val: u8)
        ensures
            Self::unaffected(final(self).state()) == Self::unaffected(old(self).state()),
            final(self).state() == Self::spec_mem_write(old(self).state(), addr, val),
    ;

    fn io_read(&mut self, port: u16) -> (v: u8)
        ensures
            Self::unaffected(final(self).state()) == Self::unaffected(old(self).state()),
            (final(self).state(), v) == Self::spec_io_read(old(self).state(), port),
    ;

    fn io_write(&mut self, port: u16, val: u8)
        ensures
            Self::unaffected(final(self).state()) == Self::unaffected(old(self).state()),
            final(self).state() == Self::spec_io_write(old(self).state(), port, val),
    ;
}

pub struct Z80 {
    pub a: u8,
    pub f: u8,
    pub b: u8,
    pub c: u8,
    pub d: u8,
    pub e: u8,
    pub h: u8,
    pub l: u8,
    pub a2: u8,
    pub f2: u8,
    pub b2: u8,
    pub c2: u8,
    pub d2: u8,
    pub e2: u8,
    pub h2: u8,
    pub l2: u8,
    pub ix: u16,
    pub iy: u16,
    pub sp: u16,
    pub pc: u16,
    pub i: u8,
    pub r: u8,
    pub iff1: bool,
    pub iff2: bool,
    pub im: u8,
    pub halted: bool,
    pub cycles: u64,
}

/// The most cycles one instruction, interrupt or NMI adds to the counter.
pub open spec fn cycles_ok(c: Z80) -> bool {
    c.cycles <= u64::MAX - 23
}

/// The cycle counter moved forward by one instruction: 4 to 23 cycles.
pub open spec fn ran(c0: Z80, c1: Z80) -> bool {
    c0.cycles + 4 <= c1.cycles <= c0.cycles + 23
}

/// The register file right after power-on.
pub open spec fn power_on() -> Z80 {
    Z80 {
        a: 0, f: 0, b: 0, c: 0, d: 0, e: 0, h: 0, l: 0,
        a2: 0, f2: 0, b2: 0, c2: 0, d2: 0, e2: 0, h2: 0, l2: 0,
        ix: 0xFFFF, iy: 0xFFFF, sp: 0xFFFF, pc: 0, i: 0, r: 0,
        iff1: false, iff2: false, im: 1, halted: false, cycles: 0,
    }
}

/// The state a reset leaves; the registers it does not name keep their values.
pub open spec fn after_reset(c: Z80) -> Z80 {
    Z80 { pc: 0, sp: 0xFFFF, iff1: false, iff2: false, im: 1, halted: false, a: 0xFF, f: 0xFF, ..c }
}

fn mk_flags(s: bool, z: bool, y: bool, h: bool, x: bool, pv: bool, n: bool, c: bool) -> (r: u8)
    ensures
        r == flags(s, z, y, h, x, pv, n, c),
{
    (if s { FLAG_S } else { 0u8 }) | (if z { FLAG_Z } else { 0u8 }) | (if y { FLAG_Y } else { 0u8 })
        | (if h { FLAG_H } else { 0u8 }) | (if x { FLAG_X } else { 0u8 }) | (if pv { FLAG_PV } else { 0u8 })
        | (if n { FLAG_N } else { 0u8 }) | (if c { FLAG_C } else { 0u8 })
}

/// Even parity of a byte.
fn parity(v: u8) -> (r: bool)
    ensures
        r == even_parity(v),
{
    let n: u8 = v % 2 + v / 2 % 2 + v / 4 % 2 + v / 8 % 2 + v / 16 % 2 + v / 32 % 2 + v / 64 % 2 + v / 128 % 2;
    n % 2 == 0
}

fn wrap16(x: u16, delta: u16) -> (r: u16)
    ensures
        r == w16(x + delta),
{
    x.wrapping_add(delta)
}

fn wrap16_sub(x: u16, delta: u16) -> (r: u16)
    ensures
        r == w16(x - delta),
{
    x.wrapping_sub(delta)
}

/// `pc` moved by the signed displacement `d`.
fn rel(pc: u16, d: u8) -> (r: u16)
    ensures
        r == w16(pc + sext(d)),
{
    if d < 128 {
        pc.wrapping_add(d as u16)
    } else {
        pc.wrapping_sub(256 - d as u16)
    }
}

fn make_pair(hi: u8, lo: u8) -> (r: u16)
    ensures
        r == pair(hi, lo),
{
    (hi as u16) * 256 + (lo as u16)
}

fn high(v: u16) -> (r: u8)
    ensures
        r == hi_byte(v),
{
    (v / 256) as u8
}

fn low(v: u16) -> (r: u8)
    ensures
        r == lo_byte(v),
{
    (v % 256) as u8
}

proof fn lemma_add_overflow(a: u8, v: u8, r: u8)
    by (bit_vector)
    ensures
        ((!(a ^ v) & (a ^ r)) & 0x80 != 0) == ((a >= 128) == (v >= 128) && (r >= 128) != (a >= 128)),
{
}

proof fn lemma_sub_overflow(a: u8, v: u8, r: u8)
    by (bit_vector)
    ensures
        (((a ^ v) & (a ^ r)) & 0x80 != 0) == ((a >= 128) != (v >= 128) && (r >= 128) != (a >= 128)),
{
}

proof fn lemma_add_overflow16(a: u16, v: u16, r: u16)
    by (bit_vector)
    ensures
        ((!(a ^ v) & (a ^ r)) & 0x8000 != 0) == ((a >= 0x8000) == (v >= 0x8000) && (r >= 0x8000) != (a >= 0x8000)),
{
}

proof fn lemma_sub_overflow16(a: u16, v: u16, r: u16)
    by (bit_vector)
    ensures
        (((a ^ v) & (a ^ r)) & 0x8000 != 0) == ((a >= 0x8000) != (v >= 0x8000) && (r >= 0x8000) != (a >= 0x8000)),
{
}

/// The flags CPI / CPD leave.
fn cp_flags(f: u8, a: u8, v: u8, bc: u16) -> (r: u8)
    ensures
        r == cp_block_flags(f, a, v, bc),
{
    let r = a.wrapping_sub(v);
    let h = (a % 16) < (v % 16);
    let n = r.wrapping_sub(if h { 1 } else { 0 });
    mk_flags(r >= 0x80, r == 0, n & FLAG_Y != 0, h, n & 2 != 0, bc != 0, true, f & FLAG_C != 0)
}

fn daa_value(a0: u8, correction: u8, nf: bool) -> (r: u8)
    ensures
        r == (if nf { w8(a0 - correction) } else { w8(a0 + correction) }),
{
    if !nf { a0.wrapping_add(correction) } else { a0.wrapping_sub(correction) }
}

/// DAA on accumulator `a0` with the given C, H and N flags: (result, flags).
fn daa_result(a0: u8, cf: bool, hf: bool, nf: bool) -> (r: (u8, u8))
    ensures
        forall|f: u8| flag_set(f, FLAG_C) == cf && flag_set(f, FLAG_H) == hf && flag_set(f, FLAG_N) == nf
            ==> #[trigger] alu_daa(a0, f) == r,
{
    let low_fix = hf || (a0 % 16) > 9;
    let high_fix = cf || a0 > 0x99;
    let correction: u8 = (if low_fix { 0x06u8 } else { 0 }) + (if high_fix { 0x60u8 } else { 0 });
    let a = daa_value(a0, correction, nf);
    let new_h = if nf { hf && (a0 % 16) < 6 } else { (a0 % 16) > 9 };
    let p = parity(a);
    let f = mk_flags(a >= 0x80, a == 0, a & FLAG_Y != 0, new_h, a & FLAG_X != 0, p, nf, high_fix);
    assert forall|f0: u8| flag_set(f0, FLAG_C) == cf && flag_set(f0, FLAG_H) == hf && flag_set(f0, FLAG_N) == nf
        implies #[trigger] alu_daa(a0, f0) == (a, f) by {
        assert(alu_daa(a0, f0).0 == a);
    }
    (a, f)
}

impl Z80 {
    pub fn new() -> (z: Z80)
        ensures
            z == power_on(),
    {
        Z80 {
            a: 0, f: 0, b: 0, c: 0, d: 0, e: 0, h: 0, l: 0,
            a2: 0, f2: 0, b2: 0, c2: 0, d2: 0, e2: 0, h2: 0, l2: 0,
            ix: 0xFFFF, iy: 0xFFFF, sp: 0xFFFF, pc: 0, i: 0, r: 0,
            iff1: false, iff2: false, im: 1, halted: false, cycles: 0,
        }
    }

    pub fn reset(&mut self)
        ensures
            *final(self) == after_reset(*old(self)),
    {
        self.pc = 0;
        self.sp = 0xFFFF;
        self.iff1 = false;
        self.iff2 = false;
        self.im = 1;
        self.halted = false;
        self.a = 0xFF;
        self.f = 0xFF;
    }

    // ── register pairs ──────────────────────────────────────────────────────

    pub fn bc(&self) -> (v: u16)
        ensures
            v == bc(*self),
    {
        make_pair(self.b, self.c)
    }

    pub fn de(&self) -> (v: u16)
        ensures
            v == de(*self),
    {
        make_pair(self.d, self.e)
    }

    pub fn hl(&self) -> (v: u16)
        ensures
            v == hl(*self),
    {
        make_pair(self.h, self.l)
    }

    pub fn af(&self) -> (v: u16)
        ensures
            v == af(*self),
    {
        make_pair(self.a, self.f)
    }

    pub fn set_bc(&mut self, v: u16)
        ensures
            *final(self) == with_bc(*old(self), v),
    {
        self.b = high(v);
        self.c = low(v);
    }

    pub fn set_de(&mut self, v: u16)
        ensures
            *final(self) == with_de(*old(self), v),
    {
        self.d = high(v);
        self.e = low(v);
    }

    pub fn set_hl(&mut self, v: u16)
        ensures
            *final(self) == with_hl(*old(self), v),
    {
        self.h = high(v);
        self.l = low(v);
    }

    pub fn set_af(&mut self, v: u16)
        ensures
            *final(self) == with_af(*old(self), v),
    {
        self.a = high(v);
        self.f = low(v);
    }

    // ── flags ───────────────────────────────────────────────────────────────

    fn sf(&self) -> (r: bool)
        ensures
            r == flag_set(self.f, FLAG_S),
    {
        self.f & FLAG_S != 0
    }

    fn zf(&self) -> (r: bool)
        ensures
            r == flag_set(self.f, FLAG_Z),
    {
        self.f & FLAG_Z != 0
    }

    fn hf(&self) -> (r: bool)
        ensures
            r == flag_set(self.f, FLAG_H),
    {
        self.f & FLAG_H != 0
    }

    fn pvf(&self) -> (r: bool)
        ensures
            r == flag_set(self.f, FLAG_PV),
    {
        self.f & FLAG_PV != 0
    }

    fn nf(&self) -> (r: bool)
        ensures
            r == flag_set(self.f, FLAG_N),
    {
        self.f & FLAG_N != 0
    }

    fn cf(&self) -> (r: bool)
        ensures
            r == flag_set(self.f, FLAG_C),
    {
        self.f & FLAG_C != 0
    }

    /// Condition code `cc` (NZ Z NC C PO PE P M).
    fn cond(&self, cc: u8) -> (r: bool)
        ensures
            r == cond(*self, cc),
    {
        match cc {
            0 => !self.zf(),
            1 => self.zf(),
            2 => !self.cf(),
            3 => self.cf(),
            4 => !self.pvf(),
            5 => self.pvf(),
            6 => !self.sf(),
            _ => self.sf(),
        }
    }

    // ── memory helpers ──────────────────────────────────────────────────────

    fn fetch<B: BusAccess>(&mut self, bus: &mut B) -> (v: u8)
        ensures
            B::unaffected(final(bus).state()) == B::unaffected(old(bus).state()),
            (*final(self), final(bus).state(), v) == s_fetch::<B>(*old(self), old(bus).state()),
    {
        let v = bus.mem_read(self.pc);
        self.pc = self.pc.wrapping_add(1);
        self.r = (self.r & 0x80) | (self.r.wrapping_add(1) & 0x7F);
        v
    }

    fn fetch16<B: BusAccess>(&mut self, bus: &mut B) -> (v: u16)
        ensures
            B::unaffected(final(bus).state()) == B::unaffected(old(bus).state()),
            (*final(self), final(bus).state(), v) == s_fetch16::<B>(*old(self), old(bus).state()),
    {
        let lo = self.fetch(bus);
        let hi = self.fetch(bus);
        make_pair(hi, lo)
    }

    fn read16<B: BusAccess>(&mut self, bus: &mut B, addr: u16) -> (v: u16)
        ensures
            B::unaffected(final(bus).state()) == B::unaffected(old(bus).state()),
            *final(self) == *old(self),
            (final(bus).state(), v) == s_read16::<B>(old(bus).state(), addr),
    {
        let lo = bus.mem_read(addr);
        let hi = bus.mem_read(addr.wrapping_add(1));
        make_pair(hi, lo)
    }

    fn write16<B: BusAccess>(&mut self, bus: &mut B, addr: u16, val: u16)
        ensures
            B::unaffected(final(bus).state()) == B::unaffected(old(bus).state()),
            *final(self) == *old(self),
            final(bus).state() == s_write16::<B>(old(bus).state(), addr, val),
    {
        bus.mem_write(addr, low(val));
        bus.mem_write(addr.wrapping_add(1), high(val));
    }

    fn push16<B: BusAccess>(&mut self, bus: &mut B, val: u16)
        ensures
            B::unaffected(final(bus).state()) == B::unaffected(old(bus).state()),
            (*final(self), final(bus).state()) == s_push16::<B>(*old(self), old(bus).state(), val),
    {
        self.sp = self.sp.wrapping_sub(2);
        let sp = self.sp;
        self.write16(bus, sp, val);
    }

    fn pop16<B: BusAccess>(&mut self, bus: &mut B) -> (v: u16)
        ensures
            B::unaffected(final(bus).state()) == B::unaffected(old(bus).state()),
            (*final(self), final(bus).state(), v) == s_pop16::<B>(*old(self), old(bus).state()),
    {
        let sp = self.sp;
        let v = self.read16(bus, sp);
        self.sp = self.sp.wrapping_add(2);
        v
    }

    /// Push PC and continue at `target`.
    fn call<B: BusAccess>(&mut self, bus: &mut B, target: u16)
        ensures
            B::unaffected(final(bus).state()) == B::unaffected(old(bus).state()),
            (*final(self), final(bus).state()) == s_call::<B>(*old(self), old(bus).state(), target),
    {
        let pc = self.pc;
        self.push16(bus, pc);
        self.pc = target;
    }

    fn tick(&mut self, n: u64)
        requires
            old(self).cycles + n <= u64::MAX,
        ensures
            *final(self) == tick(*old(self), n as int),
    {
        self.cycles = self.cycles + n;
    }

    // ── ALU ─────────────────────────────────────────────────────────────────

    fn add8(&mut self, val: u8, carry: bool)
        ensures
            final(self).a == alu_add(old(self).a, val, carry).0,
            final(self).f == alu_add(old(self).a, val, carry).1,
            *final(self) == (Z80 { a: final(self).a, f: final(self).f, ..*old(self) }),
    {
        let c: u16 = if carry { 1 } else { 0 };
        let a = self.a;
        let result: u16 = (a as u16) + (val as u16) + c;
        let r = (result % 256) as u8;
        let half = (a % 16) as u16 + (val % 16) as u16 + c > 0x0F;
        let overflow = (!(a ^ val) & (a ^ r)) & 0x80 != 0;
        proof {
            lemma_add_overflow(a, val, r);
        }
        self.f = mk_flags(r >= 0x80, r == 0, r & FLAG_Y != 0, half, r & FLAG_X != 0, overflow, false, result > 0xFF);
        self.a = r;
    }

    fn sub8(&mut self, val: u8, carry: bool)
        ensures
            final(self).a == alu_sub(old(self).a, val, carry).0,
            final(self).f == alu_sub(old(self).a, val, carry).1,
            *final(self) == (Z80 { a: final(self).a, f: final(self).f, ..*old(self) }),
    {
        let c: u8 = if carry { 1 } else { 0 };
        let a = self.a;
        let r = a.wrapping_sub(val).wrapping_sub(c);
        let half = (a % 16) < (val % 16) + c;
        let borrow = (a as u16) < (val as u16) + (c as u16);
        let overflow = ((a ^ val) & (a ^ r)) & 0x80 != 0;
        proof {
            lemma_sub_overflow(a, val, r);
        }
        self.f = mk_flags(r >= 0x80, r == 0, r & FLAG_Y != 0, half, r & FLAG_X != 0, overflow, true, borrow);
        self.a = r;
    }

    fn and8(&mut self, val: u8)
        ensures
            *final(self) == (Z80 { a: alu_and(old(self).a, val).0, f: alu_and(old(self).a, val).1, ..*old(self) }),
    {
        let a = self.a & val;
        self.a = a;
        self.f = mk_flags(a >= 0x80, a == 0, a & FLAG_Y != 0, true, a & FLAG_X != 0, parity(a), false, false);
    }

    fn or8(&mut self, val: u8)
        ensures
            *final(self) == (Z80 { a: alu_or(old(self).a, val).0, f: alu_or(old(self).a, val).1, ..*old(self) }),
    {
        let a = self.a | val;
        self.a = a;
        self.f = mk_flags(a >= 0x80, a == 0, a & FLAG_Y != 0, false, a & FLAG_X != 0, parity(a), false, false);
    }

    fn xor8(&mut self, val: u8)
        ensures
            *final(self) == (Z80 { a: alu_xor(old(self).a, val).0, f: alu_xor(old(self).a, val).1, ..*old(self) }),
    {
        let a = self.a ^ val;
        self.a = a;
        self.f = mk_flags(a >= 0x80, a == 0, a & FLAG_Y != 0, false, a & FLAG_X != 0, parity(a), false, false);
    }

    /// CP: the flags of A - v, with Y and X taken from the operand; A unchanged.
    fn cp8(&mut self, val: u8)
        ensures
            *final(self) == (Z80 { f: alu_cp(old(self).a, val), ..*old(self) }),
    {
        let a = self.a;
        let r = a.wrapping_sub(val);
        let half = (a % 16) < (val % 16);
        let borrow = a < val;
        let overflow = ((a ^ val) & (a ^ r)) & 0x80 != 0;
        proof {
            lemma_sub_overflow(a, val, r);
        }
        self.f = mk_flags(r >= 0x80, r == 0, val & FLAG_Y != 0, half, val & FLAG_X != 0, overflow, true, borrow);
    }

    fn inc8(&mut self, v: u8) -> (r: u8)
        ensures
            r == alu_inc(old(self).f, v).0,
            *final(self) == (Z80 { f: alu_inc(old(self).f, v).1, ..*old(self) }),
    {
        let r = v.wrapping_add(1);
        let overflow = v == 0x7F;
        self.f = mk_flags(r >= 0x80, r == 0, r & FLAG_Y != 0, v % 16 == 0x0F, r & FLAG_X != 0, overflow, false, self.f & FLAG_C != 0);
        r
    }

    fn dec8(&mut self, v: u8) -> (r: u8)
        ensures
            r == alu_dec(old(self).f, v).0,
            *final(self) == (Z80 { f: alu_dec(old(self).f, v).1, ..*old(self) }),
    {
        let r = v.wrapping_sub(1);
        let overflow = v == 0x80;
        self.f = mk_flags(r >= 0x80, r == 0, r & FLAG_Y != 0, v % 16 == 0, r & FLAG_X != 0, overflow, true, self.f & FLAG_C != 0);
        r
    }

    fn add16(&mut self, hl: u16, rr: u16) -> (r: u16)
        ensures
            r == alu_add16(old(self).f, hl, rr).0,
            *final(self) == (Z80 { f: alu_add16(old(self).f, hl, rr).1, ..*old(self) }),
    {
        let result: u32 = (hl as u32) + (rr as u32);
        let r = (result % 65536) as u16;
        let hi = high(r);
        let half = (hl % 4096) + (rr % 4096) > 0x0FFF;
        let f = self.f;
        self.f = mk_flags(f & FLAG_S != 0, f & FLAG_Z != 0, hi & FLAG_Y != 0, half, hi & FLAG_X != 0,
            f & FLAG_PV != 0, false, result > 0xFFFF);
        r
    }

    fn adc16(&mut self, hl: u16, rr: u16) -> (r: u16)
        ensures
            r == alu_adc16(old(self).f, hl, rr).0,
            *final(self) == (Z80 { f: alu_adc16(old(self).f, hl, rr).1, ..*old(self) }),
    {
        let c: u32 = if self.cf() { 1 } else { 0 };
        let result: u32 = (hl as u32) + (rr as u32) + c;
        let r16 = (result % 65536) as u16;
        let hi = high(r16);
        let half = (hl % 4096) as u32 + (rr % 4096) as u32 + c > 0x0FFF;
        let overflow = (!(hl ^ rr) & (hl ^ r16)) & 0x8000 != 0;
        proof {
            lemma_add_overflow16(hl, rr, r16);
        }
        self.f = mk_flags(r16 >= 0x8000, r16 == 0, hi & FLAG_Y != 0, half, hi & FLAG_X != 0, overflow, false, result > 0xFFFF);
        r16
    }

    fn sbc16(&mut self, hl: u16, rr: u16) -> (r: u16)
        ensures
            r == alu_sbc16(old(self).f, hl, rr).0,
            *final(self) == (Z80 { f: alu_sbc16(old(self).f, hl, rr).1, ..*old(self) }),
    {
        let c: u16 = if self.cf() { 1 } else { 0 };
        let r16 = hl.wrapping_sub(rr).wrapping_sub(c);
        let hi = high(r16);
        let half = (hl % 4096) < (rr % 4096) + c;
        let borrow = (hl as u32) < (rr as u32) + (c as u32);
        let overflow = ((hl ^ rr) & (hl ^ r16)) & 0x8000 != 0;
        proof {
            lemma_sub_overflow16(hl, rr, r16);
        }
        self.f = mk_flags(r16 >= 0x8000, r16 == 0, hi & FLAG_Y != 0, half, hi & FLAG_X != 0, overflow, true, borrow);
        r16
    }

    /// RLCA, RRCA, RLA, RRA by index 0..3.
    fn rotate_acc(&mut self, k: u8)
        requires
            k < 4,
        ensures
            *final(self) == (Z80 { a: acc_rotate(k, old(self).a, old(self).f).0, f: acc_rotate(k, old(self).a, old(self).f).1, ..*old(self) }),
    {
        let a = self.a;
        let old_c: u8 = if self.cf() { 1 } else { 0 };
        let (r, c) = match k {
            0 => ((a << 1u8) | (a >> 7u8), a >= 128),
            1 => ((a >> 1u8) | ((a & 1) << 7u8), a % 2 == 1),
            2 => ((a << 1u8) | old_c, a >= 128),
            _ => ((a >> 1u8) | (old_c << 7u8), a % 2 == 1),
        };
        let f = self.f;
        self.a = r;
        self.f = mk_flags(f & FLAG_S != 0, f & FLAG_Z != 0, r & FLAG_Y != 0, false, r & FLAG_X != 0, f & FLAG_PV != 0, false, c);
    }

    fn daa(&mut self)
        ensures
            *final(self) == (Z80 { a: alu_daa(old(self).a, old(self).f).0, f: alu_daa(old(self).a, old(self).f).1, ..*old(self) }),
    {
        let (a, f) = daa_result(self.a, self.cf(), self.hf(), self.nf());
        self.f = f;
        self.a = a;
    }

    fn neg(&mut self)
        ensures
            *final(self) == (Z80 { a: alu_sub(0, old(self).a, false).0, f: alu_sub(0, old(self).a, false).1, ..*old(self) }),
    {
        let v = self.a;
        self.a = 0;
        self.sub8(v, false);
    }

    /// The CB-table rotations and shifts by index 0..7 (RLC RRC RL RR SLA SRA SLL SRL).
    fn shift(&mut self, k: u8, v: u8) -> (r: u8)
        requires
            k < 8,
        ensures
            r == alu_shift(k, old(self).f, v).0,
            *final(self) == (Z80 { f: alu_shift(k, old(self).f, v).1, ..*old(self) }),
    {
        let old_c: u8 = if self.cf() { 1 } else { 0 };
        let (r, c) = match k {
            0 => ((v << 1u8) | (v >> 7u8), v >= 128),
            1 => ((v >> 1u8) | ((v & 1) << 7u8), v % 2 == 1),
            2 => ((v << 1u8) | old_c, v >= 128),
            3 => ((v >> 1u8) | (old_c << 7u8), v % 2 == 1),
            4 => (v << 1u8, v >= 128),
            5 => ((v >> 1u8) | (v & 0x80), v % 2 == 1),
            6 => ((v << 1u8) | 1, v >= 128),
            _ => (v >> 1u8, v % 2 == 1),
        };
        self.f = mk_flags(r >= 0x80, r == 0, r & FLAG_Y != 0, false, r & FLAG_X != 0, parity(r), false, c);
        r
    }

    fn bit(&mut self, b: u8, v: u8)
        requires
            b < 8,
        ensures
            *final(self) == (Z80 { f: alu_bit(old(self).f, b, v), ..*old(self) }),
    {
        let m = v & (1u8 << b);
        self.f = mk_flags(m & 0x80 != 0, m == 0, v & FLAG_Y != 0, true, v & FLAG_X != 0, m == 0, false, self.f & FLAG_C != 0);
    }

    /// ALU operation `k` (ADD ADC SUB SBC AND XOR OR CP) on A and `v`.
    fn alu(&mut self, k: u8, v: u8)
        requires
            k < 8,
        ensures
            *final(self) == alu_op(*old(self), k, v),
    {
        match k {
            0 => self.add8(v, false),
            1 => {
                let c = self.cf();
                self.add8(v, c)
            },
            2 => self.sub8(v, false),
            3 => {
                let c = self.cf();
                self.sub8(v, c)
            },
            4 => self.and8(v),
            5 => self.xor8(v),
            6 => self.or8(v),
            _ => self.cp8(v),
        }
    }

    // ── interrupts ──────────────────────────────────────────────────────────

    pub fn nmi<B: BusAccess>(&mut self, bus: &mut B)
        requires
            cycles_ok(*old(self)),
        ensures
            B::unaffected(final(bus).state()) == B::unaffected(old(bus).state()),
            (*final(self), final(bus).state()) == s_nmi::<B>(*old(self), old(bus).state()),
    {
        self.halted = false;
        self.iff2 = self.iff1;
        self.iff1 = false;
        self.call(bus, 0x0066);
        self.tick(11);
    }

    pub fn interrupt<B: BusAccess>(&mut self, bus: &mut B, data: u8)
        requires
            cycles_ok(*old(self)),
        ensures
            B::unaffected(final(bus).state()) == B::unaffected(old(bus).state()),
            (*final(self), final(bus).state()) == s_interrupt::<B>(*old(self), old(bus).state(), data),
    {
        if !self.iff1 {
            return;
        }
        self.halted = false;
        self.iff1 = false;
        self.iff2 = false;
        match self.im {
            0 => {
                self.call(bus, (data & 0x38) as u16);
                self.tick(13);
            },
            1 => {
                self.call(bus, 0x0038);
                self.tick(13);
            },
            2 => {
                let vec_addr = make_pair(self.i, data & 0xFE);
                let target = self.read16(bus, vec_addr);
                self.call(bus, target);
                self.tick(19);
            },
            _ => {},
        }
    }

    // ── register access ─────────────────────────────────────────────────────

    fn get_reg(&self, r: u8) -> (v: u8)
        ensures
            v == reg(*self, r),
    {
        match r {
            0 => self.b,
            1 => self.c,
            2 => self.d,
            3 => self.e,
            4 => self.h,
            5 => self.l,
            7 => self.a,
            _ => 0,
        }
    }

    fn set_reg(&mut self, r: u8, v: u8)
        ensures
            *final(self) == with_reg(*old(self), r, v),
    {
        match r {
            0 => self.b = v,
            1 => self.c = v,
            2 => self.d = v,
            3 => self.e = v,
            4 => self.h = v,
            5 => self.l = v,
            7 => self.a = v,
            _ => {},
        }
    }

    fn get_rr(&self, rr: u8) -> (v: u16)
        ensures
            v == rp(*self, rr),
    {
        match rr {
            0 => self.bc(),
            1 => self.de(),
            2 => self.hl(),
            3 => self.sp,
            _ => 0,
        }
    }

    fn set_rr(&mut self, rr: u8, v: u16)
        ensures
            *final(self) == with_rp(*old(self), rr, v),
    {
        match rr {
            0 => self.set_bc(v),
            1 => self.set_de(v),
            2 => self.set_hl(v),
            3 => self.sp = v,
            _ => {},
        }
    }

    // ── main table, x = 0 ───────────────────────────────────────────────────

    /// NOP, EX AF,AF', DJNZ, JR, JR cc.
    fn exec_x0_z0<B: BusAccess>(&mut self, bus: &mut B, y: u8)
        requires
            cycles_ok(*old(self)),
            y < 8,
        ensures
            B::unaffected(final(bus).state()) == B::unaffected(old(bus).state()),
            ran(*old(self), *final(self)),
            (*final(self), final(bus).state()) == s_x0_z0::<B>(*old(self), old(bus).state(), y),
    {
        if y == 0 {
            self.tick(4);
        } else if y == 1 {
            let a = self.a;
            let f = self.f;
            self.a = self.a2;
            self.f = self.f2;
            self.a2 = a;
            self.f2 = f;
            self.tick(4);
        } else if y == 2 {
            let d = self.fetch(bus);
            self.b = self.b.wrapping_sub(1);
            if self.b != 0 {
                self.pc = rel(self.pc, d);
                self.tick(13);
            } else {
                self.tick(8);
            }
        } else if y == 3 {
            let d = self.fetch(bus);
            self.pc = rel(self.pc, d);
            self.tick(12);
        } else {
            let d = self.fetch(bus);
            if self.cond(y - 4) {
                self.pc = rel(self.pc, d);
                self.tick(12);
            } else {
                self.tick(7);
            }
        }
    }

    /// LD rr,nn and ADD HL,rr.
    fn exec_x0_z1<B: BusAccess>(&mut self, bus: &mut B, y: u8)
        requires
            cycles_ok(*old(self)),
            y < 8,
        ensures
            B::unaffected(final(bus).state()) == B::unaffected(old(bus).state()),
            ran(*old(self), *final(self)),
            (*final(self), final(bus).state()) == s_x0_z1::<B>(*old(self), old(bus).state(), y),
    {
        let p = y / 2;
        if y % 2 == 0 {
            let v = self.fetch16(bus);
            self.set_rr(p, v);
            self.tick(10);
        } else {
            let hl = self.hl();
            let rr = self.get_rr(p);
            let r = self.add16(hl, rr);
            self.set_hl(r);
            self.tick(11);
        }
    }

    /// Loads through BC, DE and absolute addresses.
    fn exec_x0_z2<B: BusAccess>(&mut self, bus: &mut B, y: u8)
        requires
            cycles_ok(*old(self)),
            y < 8,
        ensures
            B::unaffected(final(bus).state()) == B::unaffected(old(bus).state()),
            ran(*old(self), *final(self)),
            (*final(self), final(bus).state()) == s_x0_z2::<B>(*old(self), old(bus).state(), y),
    {
        match y {
            0 => {
                bus.mem_write(self.bc(), self.a);
                self.tick(7);
            },
            1 => {
                self.a = bus.mem_read(self.bc());
                self.tick(7);
            },
            2 => {
                bus.mem_write(self.de(), self.a);
                self.tick(7);
            },
            3 => {
                self.a = bus.mem_read(self.de());
                self.tick(7);
            },
            4 => {
                let addr = self.fetch16(bus);
                let hl = self.hl();
                self.write16(bus, addr, hl);
                self.tick(16);
            },
            5 => {
                let addr = self.fetch16(bus);
                let v = self.read16(bus, addr);
                self.set_hl(v);
                self.tick(16);
            },
            6 => {
                let addr = self.fetch16(bus);
                bus.mem_write(addr, self.a);
                self.tick(13);
            },
            _ => {
                let addr = self.fetch16(bus);
                self.a = bus.mem_read(addr);
                self.tick(13);
            },
        }
    }

    /// INC rr and DEC rr.
    fn exec_x0_z3(&mut self, y: u8)
        requires
            cycles_ok(*old(self)),
            y < 8,
        ensures
            ran(*old(self), *final(self)),
            *final(self) == s_x0_z3(*old(self), y),
    {
        let p = y / 2;
        let v = self.get_rr(p);
        if y % 2 == 0 {
            self.set_rr(p, wrap16(v, 1));
        } else {
            self.set_rr(p, wrap16_sub(v, 1));
        }
        self.tick(6);
    }

    /// INC r / DEC r, including (HL).
    fn exec_x0_incdec<B: BusAccess>(&mut self, bus: &mut B, y: u8, dec: bool)
        requires
            cycles_ok(*old(self)),
            y < 8,
        ensures
            B::unaffected(final(bus).state()) == B::unaffected(old(bus).state()),
            ran(*old(self), *final(self)),
            (*final(self), final(bus).state()) == s_x0_incdec::<B>(*old(self), old(bus).state(), y, dec),
    {
        if y == 6 {
            let hl = self.hl();
            let v = bus.mem_read(hl);
            let r = if dec { self.dec8(v) } else { self.inc8(v) };
            bus.mem_write(hl, r);
            self.tick(11);
        } else {
            let v = self.get_reg(y);
            let r = if dec { self.dec8(v) } else { self.inc8(v) };
            self.set_reg(y, r);
            self.tick(4);
        }
    }

    /// LD r,n and LD (HL),n.
    fn exec_x0_z6<B: BusAccess>(&mut self, bus: &mut B, y: u8)
        requires
            cycles_ok(*old(self)),
            y < 8,
        ensures
            B::unaffected(final(bus).state()) == B::unaffected(old(bus).state()),
            ran(*old(self), *final(self)),
            (*final(self), final(bus).state()) == s_x0_z6::<B>(*old(self), old(bus).state(), y),
    {
        let n = self.fetch(bus);
        if y == 6 {
            let hl = self.hl();
            bus.mem_write(hl, n);
            self.tick(10);
        } else {
            self.set_reg(y, n);
            self.tick(7);
        }
    }

    /// RLCA RRCA RLA RRA DAA CPL SCF CCF.
    fn exec_x0_z7(&mut self, y: u8)
        requires
            cycles_ok(*old(self)),
            y < 8,
        ensures
            ran(*old(self), *final(self)),
            *final(self) == s_x0_z7(*old(self), y),
    {
        let f = self.f;
        if y < 4 {
            self.rotate_acc(y);
        } else if y == 4 {
            self.daa();
        } else if y == 5 {
            self.a = !self.a;
            let a = self.a;
            self.f = mk_flags(f & FLAG_S != 0, f & FLAG_Z != 0, a & FLAG_Y != 0, true, a & FLAG_X != 0,
                f & FLAG_PV != 0, true, f & FLAG_C != 0);
        } else if y == 6 {
            let a = self.a;
            self.f = mk_flags(f & FLAG_S != 0, f & FLAG_Z != 0, a & FLAG_Y != 0, false, a & FLAG_X != 0,
                f & FLAG_PV != 0, false, true);
        } else {
            let a = self.a;
            let old_c = f & FLAG_C != 0;
            self.f = mk_flags(f & FLAG_S != 0, f & FLAG_Z != 0, a & FLAG_Y != 0, old_c, a & FLAG_X != 0,
                f & FLAG_PV != 0, false, !old_c);
        }
        self.tick(4);
    }

    fn exec_x0<B: BusAccess>(&mut self, bus: &mut B, op: u8)
        requires
            cycles_ok(*old(self)),
            op < 64,
        ensures
            B::unaffected(final(bus).state()) == B::unaffected(old(bus).state()),
            ran(*old(self), *final(self)),
            (*final(self), final(bus).state()) == s_x0::<B>(*old(self), old(bus).state(), op),
    {
        let y = (op / 8) % 8;
        match op % 8 {
            0 => self.exec_x0_z0(bus, y),
            1 => self.exec_x0_z1(bus, y),
            2 => self.exec_x0_z2(bus, y),
            3 => self.exec_x0_z3(y),
            4 => self.exec_x0_incdec(bus, y, false),
            5 => self.exec_x0_incdec(bus, y, true),
            6 => self.exec_x0_z6(bus, y),
            _ => self.exec_x0_z7(y),
        }
    }

    // ── x = 1 and x = 2 ─────────────────────────────────────────────────────

    /// LD r,r', LD r,(HL), LD (HL),r and HALT.
    fn exec_x1<B: BusAccess>(&mut self, bus: &mut B, op: u8)
        requires
            cycles_ok(*old(self)),
        ensures
            B::unaffected(final(bus).state()) == B::unaffected(old(bus).state()),
            ran(*old(self), *final(self)),
            (*final(self), final(bus).state()) == s_x1::<B>(*old(self), old(bus).state(), op),
    {
        let dst = (op / 8) % 8;
        let src = op % 8;
        if op == 0x76 {
            self.halted = true;
            self.pc = wrap16_sub(self.pc, 1);
            self.tick(4);
        } else if src == 6 {
            let v = bus.mem_read(self.hl());
            self.set_reg(dst, v);
            self.tick(7);
        } else if dst == 6 {
            let v = self.get_reg(src);
            bus.mem_write(self.hl(), v);
            self.tick(7);
        } else {
            let v = self.get_reg(src);
            self.set_reg(dst, v);
            self.tick(4);
        }
    }

    /// ALU A,r and ALU A,(HL).
    fn exec_x2<B: BusAccess>(&mut self, bus: &mut B, op: u8)
        requires
            cycles_ok(*old(self)),
        ensures
            B::unaffected(final(bus).state()) == B::unaffected(old(bus).state()),
            ran(*old(self), *final(self)),
            (*final(self), final(bus).state()) == s_x2::<B>(*old(self), old(bus).state(), op),
    {
        let k = (op / 8) % 8;
        let src = op % 8;
        if src == 6 {
            let v = bus.mem_read(self.hl());
            self.alu(k, v);
            self.tick(7);
        } else {
            let v = self.get_reg(src);
            self.alu(k, v);
            self.tick(4);
        }
    }

    // ── x = 3 ───────────────────────────────────────────────────────────────

    fn exec_ret_cc<B: BusAccess>(&mut self, bus: &mut B, y: u8)
        requires
            cycles_ok(*old(self)),
            y < 8,
        ensures
            B::unaffected(final(bus).state()) == B::unaffected(old(bus).state()),
            ran(*old(self), *final(self)),
            (*final(self), final(bus).state()) == s_ret_cc::<B>(*old(self), old(bus).state(), y),
    {
        if self.cond(y) {
            self.pc = self.pop16(bus);
            self.tick(11);
        } else {
            self.tick(5);
        }
    }

    /// POP rr, RET, EXX, JP (HL), LD SP,HL.
    fn exec_x3_z1<B: BusAccess>(&mut self, bus: &mut B, y: u8)
        requires
            cycles_ok(*old(self)),
            y < 8,
        ensures
            B::unaffected(final(bus).state()) == B::unaffected(old(bus).state()),
            ran(*old(self), *final(self)),
            (*final(self), final(bus).state()) == s_x3_z1::<B>(*old(self), old(bus).state(), y),
    {
        let p = y / 2;
        if y % 2 == 0 {
            let v = self.pop16(bus);
            if p == 3 {
                self.set_af(v);
            } else {
                self.set_rr(p, v);
            }
            self.tick(10);
        } else if p == 0 {
            self.pc = self.pop16(bus);
            self.tick(10);
        } else if p == 1 {
            let (b, c, d, e, h, l) = (self.b, self.c, self.d, self.e, self.h, self.l);
            self.b = self.b2;
            self.c = self.c2;
            self.d = self.d2;
            self.e = self.e2;
            self.h = self.h2;
            self.l = self.l2;
            self.b2 = b;
            self.c2 = c;
            self.d2 = d;
            self.e2 = e;
            self.h2 = h;
            self.l2 = l;
            self.tick(4);
        } else if p == 2 {
            self.pc = self.hl();
            self.tick(4);
        } else {
            self.sp = self.hl();
            self.tick(6);
        }
    }

    fn exec_jp_cc<B: BusAccess>(&mut self, bus: &mut B, y: u8)
        requires
            cycles_ok(*old(self)),
            y < 8,
        ensures
            B::unaffected(final(bus).state()) == B::unaffected(old(bus).state()),
            ran(*old(self), *final(self)),
            (*final(self), final(bus).state()) == s_jp_cc::<B>(*old(self), old(bus).state(), y),
    {
        let addr = self.fetch16(bus);
        if self.cond(y) {
            self.pc = addr;
        }
        self.tick(10);
    }

    fn exec_call_cc<B: BusAccess>(&mut self, bus: &mut B, y: u8)
        requires
            cycles_ok(*old(self)),
            y < 8,
        ensures
            B::unaffected(final(bus).state()) == B::unaffected(old(bus).state()),
            ran(*old(self), *final(self)),
            (*final(self), final(bus).state()) == s_call_cc::<B>(*old(self), old(bus).state(), y),
    {
        let addr = self.fetch16(bus);
        if self.cond(y) {
            self.call(bus, addr);
            self.tick(17);
        } else {
            self.tick(10);
        }
    }

    /// JP nn, OUT (n),A, IN A,(n), EX (SP),HL, EX DE,HL, DI, EI.
    fn exec_x3_z3<B: BusAccess>(&mut self, bus: &mut B, y: u8)
        requires
            cycles_ok(*old(self)),
            y < 8,
            y != 1,
        ensures
            B::unaffected(final(bus).state()) == B::unaffected(old(bus).state()),
            ran(*old(self), *final(self)),
            (*final(self), final(bus).state()) == s_x3_z3::<B>(*old(self), old(bus).state(), y),
    {
        match y {
            0 => {
                self.pc = self.fetch16(bus);
                self.tick(10);
            },
            2 => {
                let n = self.fetch(bus);
                bus.io_write(make_pair(self.a, n), self.a);
                self.tick(11);
            },
            3 => {
                let n = self.fetch(bus);
                self.a = bus.io_read(make_pair(self.a, n));
                self.tick(11);
            },
            4 => {
                let sp = self.sp;
                let mem_val = self.read16(bus, sp);
                let hl = self.hl();
                self.write16(bus, sp, hl);
                self.set_hl(mem_val);
                self.tick(19);
            },
            5 => {
                let (d, e) = (self.d, self.e);
                self.d = self.h;
                self.e = self.l;
                self.h = d;
                self.l = e;
                self.tick(4);
            },
            6 => {
                self.iff1 = false;
                self.iff2 = false;
                self.tick(4);
            },
            _ => {
                self.iff1 = true;
                self.iff2 = true;
                self.tick(4);
            },
        }
    }

    fn exec_x3<B: BusAccess>(&mut self, bus: &mut B, op: u8)
        requires
            cycles_ok(*old(self)),
            op >= 0xC0,
        ensures
            B::unaffected(final(bus).state()) == B::unaffected(old(bus).state()),
            ran(*old(self), *final(self)),
            (*final(self), final(bus).state()) == s_x3::<B>(*old(self), old(bus).state(), op),
    {
        let y = (op / 8) % 8;
        let p = y / 2;
        match op % 8 {
            0 => self.exec_ret_cc(bus, y),
            1 => self.exec_x3_z1(bus, y),
            2 => self.exec_jp_cc(bus, y),
            3 => {
                if y == 1 {
                    self.exec_cb(bus);
                } else {
                    self.exec_x3_z3(bus, y);
                }
            },
            4 => self.exec_call_cc(bus, y),
            5 => {
                if y % 2 == 0 {
                    let v = if p == 3 { self.af() } else { self.get_rr(p) };
                    self.push16(bus, v);
                    self.tick(11);
                } else if p == 0 {
                    let addr = self.fetch16(bus);
                    self.call(bus, addr);
                    self.tick(17);
                } else if p == 1 {
                    self.exec_dd(bus);
                } else if p == 2 {
                    self.exec_ed(bus);
                } else {
                    self.exec_fd(bus);
                }
            },
            6 => {
                let n = self.fetch(bus);
                self.alu(y, n);
                self.tick(7);
            },
            _ => {
                self.call(bus, (y as u16) * 8);
                self.tick(11);
            },
        }
    }

    // ── main execution ──────────────────────────────────────────────────────

    /// Execute one instruction and return the cycles it took.
    pub fn step<B: BusAccess>(&mut self, bus: &mut B) -> (cycles: u32)
        requires
            cycles_ok(*old(self)),
        ensures
            B::unaffected(final(bus).state()) == B::unaffected(old(bus).state()),
            (*final(self), final(bus).state()) == s_step::<B>(*old(self), old(bus).state()),
            cycles as int == final(self).cycles - old(self).cycles,
            4 <= cycles <= 23,
    {
        if self.halted {
            self.tick(4);
            return 4;
        }
        let start = self.cycles;
        let op = self.fetch(bus);
        if op < 0x40 {
            self.exec_x0(bus, op);
        } else if op < 0x80 {
            self.exec_x1(bus, op);
        } else if op < 0xC0 {
            self.exec_x2(bus, op);
        } else {
            self.exec_x3(bus, op);
        }
        (self.cycles - start) as u32
    }

    // ── CB prefix ───────────────────────────────────────────────────────────

    fn cb_writeback<B: BusAccess>(&mut self, bus: &mut B, r: u8, v: u8)
        requires
            cycles_ok(*old(self)),
        ensures
            B::unaffected(final(bus).state()) == B::unaffected(old(bus).state()),
            ran(*old(self), *final(self)),
            (*final(self), final(bus).state()) == s_cb_writeback::<B>(*old(self), old(bus).state(), r, v),
    {
        if r == 6 {
            bus.mem_write(self.hl(), v);
            self.tick(15);
        } else {
            self.set_reg(r, v);
            self.tick(8);
        }
    }

    fn exec_cb<B: BusAccess>(&mut self, bus: &mut B)
        requires
            cycles_ok(*old(self)),
        ensures
            B::unaffected(final(bus).state()) == B::unaffected(old(bus).state()),
            ran(*old(self), *final(self)),
            (*final(self), final(bus).state()) == s_cb::<B>(*old(self), old(bus).state()),
    {
        let op = self.fetch(bus);
        let r = op % 8;
        let k = (op / 8) % 8;
        let v = if r == 6 { bus.mem_read(self.hl()) } else { self.get_reg(r) };
        match op / 64 {
            0 => {
                let res = self.shift(k, v);
                self.cb_writeback(bus, r, res);
            },
            1 => {
                self.bit(k, v);
                self.tick(if r == 6 { 12 } else { 8 });
            },
            2 => self.cb_writeback(bus, r, v & !(1u8 << k)),
            _ => self.cb_writeback(bus, r, v | (1u8 << k)),
        }
    }

    // ── DD / FD prefixes ────────────────────────────────────────────────────

    fn exec_dd<B: BusAccess>(&mut self, bus: &mut B)
        requires
            cycles_ok(*old(self)),
        ensures
            B::unaffected(final(bus).state()) == B::unaffected(old(bus).state()),
            ran(*old(self), *final(self)),
            ({
                let (c1, s1, op) = s_fetch::<B>(*old(self), old(bus).state());
                (*final(self), final(bus).state()) == s_xy::<B>(c1, s1, op, false)
            }),
    {
        let op = self.fetch(bus);
        self.exec_xy(bus, op, false);
    }

    fn exec_fd<B: BusAccess>(&mut self, bus: &mut B)
        requires
            cycles_ok(*old(self)),
        ensures
            B::unaffected(final(bus).state()) == B::unaffected(old(bus).state()),
            ran(*old(self), *final(self)),
            ({
                let (c1, s1, op) = s_fetch::<B>(*old(self), old(bus).state());
                (*final(self), final(bus).state()) == s_xy::<B>(c1, s1, op, true)
            }),
    {
        let op = self.fetch(bus);
        self.exec_xy(bus, op, true);
    }

    fn get_xy(&self, use_iy: bool) -> (v: u16)
        ensures
            v == xy(*self, use_iy),
    {
        if use_iy { self.iy } else { self.ix }
    }

    fn set_xy(&mut self, use_iy: bool, v: u16)
        ensures
            *final(self) == with_xy(*old(self), use_iy, v),
    {
        if use_iy {
            self.iy = v;
        } else {
            self.ix = v;
        }
    }

    fn set_xyh(&mut self, use_iy: bool, v: u8)
        ensures
            *final(self) == with_xyh(*old(self), use_iy, v),
    {
        let cur = self.get_xy(use_iy);
        self.set_xy(use_iy, make_pair(v, low(cur)));
    }

    fn set_xyl(&mut self, use_iy: bool, v: u8)
        ensures
            *final(self) == with_xyl(*old(self), use_iy, v),
    {
        let cur = self.get_xy(use_iy);
        self.set_xy(use_iy, make_pair(high(cur), v));
    }

    /// DD/FD instructions that address (XY+d).
    fn exec_xy_mem<B: BusAccess>(&mut self, bus: &mut B, op: u8, use_iy: bool)
        requires
            cycles_ok(*old(self)),
            xy_uses_mem(op),
        ensures
            B::unaffected(final(bus).state()) == B::unaffected(old(bus).state()),
            ran(*old(self), *final(self)),
            (*final(self), final(bus).state()) == s_xy_mem::<B>(*old(self), old(bus).state(), op, use_iy),
    {
        let d = self.fetch(bus);
        let addr = rel(self.get_xy(use_iy), d);
        if op == 0x34 || op == 0x35 {
            let v = bus.mem_read(addr);
            let r = if op == 0x34 { self.inc8(v) } else { self.dec8(v) };
            bus.mem_write(addr, r);
            self.tick(23);
        } else if op == 0x36 {
            let n = self.fetch(bus);
            let addr2 = rel(self.get_xy(use_iy), d);
            bus.mem_write(addr2, n);
            self.tick(19);
        } else if 0x40 <= op && op < 0x80 && op % 8 == 6 {
            let v = bus.mem_read(addr);
            self.set_reg((op / 8) % 8, v);
            self.tick(19);
        } else if 0x70 <= op && op < 0x78 {
            let v = self.get_reg(op % 8);
            bus.mem_write(addr, v);
            self.tick(19);
        } else {
            let v = bus.mem_read(addr);
            self.alu((op / 8) % 8, v);
            self.tick(19);
        }
    }

    /// Register transfers with XYH and XYL.
    fn exec_xy_ld8(&mut self, op: u8, use_iy: bool)
        requires
            cycles_ok(*old(self)),
            xy_is_ld8(op),
        ensures
            ran(*old(self), *final(self)),
            *final(self) == s_xy_ld8(*old(self), op, use_iy),
    {
        let cur = self.get_xy(use_iy);
        let hi = high(cur);
        let lo = low(cur);
        let dst = (op / 8) % 8;
        let src = op % 8;
        if (0x40 <= op && op < 0x60) || (0x78 <= op && op < 0x80) {
            self.set_reg(dst, if src == 4 { hi } else { lo });
        } else {
            let v = if src == 4 { hi } else if src == 5 { lo } else { self.get_reg(src) };
            if op < 0x68 {
                self.set_xyh(use_iy, v);
            } else {
                self.set_xyl(use_iy, v);
            }
        }
        self.tick(8);
    }

    fn exec_xy<B: BusAccess>(&mut self, bus: &mut B, op: u8, use_iy: bool)
        requires
            cycles_ok(*old(self)),
        ensures
            B::unaffected(final(bus).state()) == B::unaffected(old(bus).state()),
            ran(*old(self), *final(self)),
            (*final(self), final(bus).state()) == s_xy::<B>(*old(self), old(bus).state(), op, use_iy),
    {
        let v = self.get_xy(use_iy);
        if op == 0x21 {
            let n = self.fetch16(bus);
            self.set_xy(use_iy, n);
            self.tick(14);
        } else if op == 0x22 {
            let addr = self.fetch16(bus);
            let cur = self.get_xy(use_iy);
            self.write16(bus, addr, cur);
            self.tick(20);
        } else if op == 0x23 {
            self.set_xy(use_iy, wrap16(v, 1));
            self.tick(10);
        } else if op == 0x2B {
            self.set_xy(use_iy, wrap16_sub(v, 1));
            self.tick(10);
        } else if op == 0x24 || op == 0x25 {
            let r = if op == 0x24 { self.inc8(high(v)) } else { self.dec8(high(v)) };
            self.set_xyh(use_iy, r);
            self.tick(8);
        } else if op == 0x2C || op == 0x2D {
            let r = if op == 0x2C { self.inc8(low(v)) } else { self.dec8(low(v)) };
            self.set_xyl(use_iy, r);
            self.tick(8);
        } else if op == 0x26 {
            let n = self.fetch(bus);
            self.set_xyh(use_iy, n);
            self.tick(11);
        } else if op == 0x2E {
            let n = self.fetch(bus);
            self.set_xyl(use_iy, n);
            self.tick(11);
        } else if op == 0x09 || op == 0x19 || op == 0x29 || op == 0x39 {
            let p = op / 16;
            let other = if p == 2 { v } else { self.get_rr(p) };
            let r = self.add16(v, other);
            self.set_xy(use_iy, r);
            self.tick(15);
        } else if op == 0x2A {
            let addr = self.fetch16(bus);
            let n = self.read16(bus, addr);
            self.set_xy(use_iy, n);
            self.tick(20);
        } else if op == 0x34 || op == 0x35 || op == 0x36
            || (0x40 <= op && op < 0x80 && op % 8 == 6 && op != 0x76)
            || (0x70 <= op && op < 0x78 && op != 0x76)
            || (0x80 <= op && op < 0xC0 && op % 8 == 6) {
            self.exec_xy_mem(bus, op, use_iy);
        } else if op == 0x44 || op == 0x45 || op == 0x4C || op == 0x4D || op == 0x54 || op == 0x55
            || op == 0x5C || op == 0x5D || op == 0x7C || op == 0x7D
            || (0x60 <= op && op < 0x70 && op % 8 != 6) {
            self.exec_xy_ld8(op, use_iy);
        } else if 0x80 <= op && op < 0xC0 && (op % 8 == 4 || op % 8 == 5) {
            let operand = if op % 8 == 4 { high(v) } else { low(v) };
            self.alu((op / 8) % 8, operand);
            self.tick(8);
        } else if op == 0xE1 {
            let n = self.pop16(bus);
            self.set_xy(use_iy, n);
            self.tick(14);
        } else if op == 0xE3 {
            let sp = self.sp;
            let mem_val = self.read16(bus, sp);
            self.write16(bus, sp, v);
            self.set_xy(use_iy, mem_val);
            self.tick(23);
        } else if op == 0xE5 {
            self.push16(bus, v);
            self.tick(15);
        } else if op == 0xE9 {
            self.pc = v;
            self.tick(8);
        } else if op == 0xF9 {
            self.sp = v;
            self.tick(10);
        } else if op == 0xCB {
            self.exec_xy_cb(bus, use_iy);
        } else {
            // Unknown or undocumented opcode: four cycles, no effect.
            self.tick(4);
        }
    }

    fn exec_xy_cb<B: BusAccess>(&mut self, bus: &mut B, use_iy: bool)
        requires
            cycles_ok(*old(self)),
        ensures
            B::unaffected(final(bus).state()) == B::unaffected(old(bus).state()),
            ran(*old(self), *final(self)),
            (*final(self), final(bus).state()) == s_xy_cb::<B>(*old(self), old(bus).state(), use_iy),
    {
        let d = self.fetch(bus);
        let op = self.fetch(bus);
        let addr = rel(self.get_xy(use_iy), d);
        let v = bus.mem_read(addr);
        let b = (op / 8) % 8;
        let r = op % 8;
        let x = op / 64;
        if x == 1 {
            self.bit(b, v);
            self.tick(20);
            return;
        }
        let result = if x == 0 {
            self.shift(b, v)
        } else if x == 2 {
            v & !(1u8 << b)
        } else {
            v | (1u8 << b)
        };
        bus.mem_write(addr, result);
        if r != 6 {
            self.set_reg(r, result);
        }
        self.tick(23);
    }

    // ── ED prefix ───────────────────────────────────────────────────────────

    fn exec_ed<B: BusAccess>(&mut self, bus: &mut B)
        requires
            cycles_ok(*old(self)),
        ensures
            B::unaffected(final(bus).state()) == B::unaffected(old(bus).state()),
            ran(*old(self), *final(self)),
            ({
                let (c1, s1, op) = s_fetch::<B>(*old(self), old(bus).state());
                (*final(self), final(bus).state()) == s_ed_op::<B>(c1, s1, op)
            }),
    {
        let op = self.fetch(bus);
        if 0x40 <= op && op < 0x80 {
            self.exec_ed_x1(bus, op);
        } else if 0xA0 <= op && op < 0xC0 && op % 8 < 4 && (op / 8) % 8 >= 4 {
            let dec = (op / 8) % 2 == 1;
            let rep = op >= 0xB0;
            match op % 8 {
                0 => self.exec_ld_block(bus, dec, rep),
                1 => self.exec_cp_block(bus, dec, rep),
                2 => self.exec_in_block(bus, dec, rep),
                _ => self.exec_out_block(bus, dec, rep),
            }
        } else {
            // Unknown ED opcode: eight cycles, no effect.
            self.tick(8);
        }
    }

    /// The ED rows 0x40..0x7F.
    fn exec_ed_x1<B: BusAccess>(&mut self, bus: &mut B, op: u8)
        requires
            cycles_ok(*old(self)),
            0x40 <= op < 0x80,
        ensures
            B::unaffected(final(bus).state()) == B::unaffected(old(bus).state()),
            ran(*old(self), *final(self)),
            (*final(self), final(bus).state()) == s_ed_x1::<B>(*old(self), old(bus).state(), op),
    {
        let y = (op / 8) % 8;
        let p = y / 2;
        match op % 8 {
            0 => {
                let v = bus.io_read(self.bc());
                let carry = self.cf();
                if y != 6 {
                    self.set_reg(y, v);
                }
                self.f = mk_flags(v >= 0x80, v == 0, v & FLAG_Y != 0, false, v & FLAG_X != 0, parity(v), false, carry);
                self.tick(12);
            },
            1 => {
                let v = if y == 6 { 0u8 } else { self.get_reg(y) };
                bus.io_write(self.bc(), v);
                self.tick(12);
            },
            2 => {
                let hl = self.hl();
                let rr = self.get_rr(p);
                let r = if y % 2 == 0 { self.sbc16(hl, rr) } else { self.adc16(hl, rr) };
                self.set_hl(r);
                self.tick(15);
            },
            3 => {
                let addr = self.fetch16(bus);
                if y % 2 == 0 {
                    let v = self.get_rr(p);
                    self.write16(bus, addr, v);
                } else {
                    let v = self.read16(bus, addr);
                    self.set_rr(p, v);
                }
                self.tick(20);
            },
            4 => {
                self.neg();
                self.tick(8);
            },
            5 => {
                if y == 3 || y == 5 || y == 7 {
                    self.tick(8);
                } else {
                    self.iff1 = self.iff2;
                    self.pc = self.pop16(bus);
                    self.tick(14);
                }
            },
            6 => {
                if y == 0 || y == 4 {
                    self.im = 0;
                } else if y == 2 || y == 6 {
                    self.im = 1;
                } else if y == 3 || y == 7 {
                    self.im = 2;
                }
                self.tick(8);
            },
            _ => {
                if y == 0 {
                    self.i = self.a;
                    self.tick(9);
                } else if y == 1 {
                    self.r = self.a;
                    self.tick(9);
                } else if y == 2 || y == 3 {
                    let a = if y == 2 { self.i } else { self.r };
                    self.a = a;
                    self.f = mk_flags(a >= 0x80, a == 0, a & FLAG_Y != 0, false, a & FLAG_X != 0, self.iff2, false, self.f & FLAG_C != 0);
                    self.tick(9);
                } else if y == 4 || y == 5 {
                    let hl = self.hl();
                    let m = bus.mem_read(hl);
                    let a0 = self.a;
                    let (new_m, a) = if y == 5 {
                        ((m << 4u8) | (a0 & 0x0F), (a0 & 0xF0) | (m >> 4u8))
                    } else {
                        ((m >> 4u8) | (a0 << 4u8), (a0 & 0xF0) | (m & 0x0F))
                    };
                    bus.mem_write(hl, new_m);
                    self.a = a;
                    self.f = mk_flags(a >= 0x80, a == 0, a & FLAG_Y != 0, false, a & FLAG_X != 0, parity(a), false, self.f & FLAG_C != 0);
                    self.tick(18);
                } else {
                    self.tick(8);
                }
            },
        }
    }

    /// LDI, LDD, LDIR, LDDR.
    fn exec_ld_block<B: BusAccess>(&mut self, bus: &mut B, dec: bool, rep: bool)
        requires
            cycles_ok(*old(self)),
        ensures
            B::unaffected(final(bus).state()) == B::unaffected(old(bus).state()),
            ran(*old(self), *final(self)),
            (*final(self), final(bus).state()) == s_ld_block::<B>(*old(self), old(bus).state(), dec, rep),
    {
        let de = self.de();
        let hl = self.hl();
        let v = bus.mem_read(hl);
        bus.mem_write(de, v);
        if dec {
            self.set_hl(wrap16_sub(hl, 1));
            self.set_de(wrap16_sub(de, 1));
        } else {
            self.set_hl(wrap16(hl, 1));
            self.set_de(wrap16(de, 1));
        }
        let bc = wrap16_sub(self.bc(), 1);
        self.set_bc(bc);
        let f = self.f;
        if !rep {
            let n = v.wrapping_add(self.a);
            self.f = mk_flags(f & FLAG_S != 0, f & FLAG_Z != 0, n & FLAG_Y != 0, false, n & 2 != 0, bc != 0, false, f & FLAG_C != 0);
            self.tick(16);
        } else if bc != 0 {
            self.pc = wrap16_sub(self.pc, 2);
            self.tick(21);
        } else {
            self.f = mk_flags(f & FLAG_S != 0, f & FLAG_Z != 0, f & FLAG_Y != 0, false, f & FLAG_X != 0, false, false, f & FLAG_C != 0);
            self.tick(16);
        }
    }

    /// CPI, CPD, CPIR, CPDR.
    fn exec_cp_block<B: BusAccess>(&mut self, bus: &mut B, dec: bool, rep: bool)
        requires
            cycles_ok(*old(self)),
        ensures
            B::unaffected(final(bus).state()) == B::unaffected(old(bus).state()),
            ran(*old(self), *final(self)),
            (*final(self), final(bus).state()) == s_cp_block::<B>(*old(self), old(bus).state(), dec, rep),
    {
        let hl = self.hl();
        let v = bus.mem_read(hl);
        let a = self.a;
        if dec {
            self.set_hl(wrap16_sub(hl, 1));
        } else {
            self.set_hl(wrap16(hl, 1));
        }
        let bc = wrap16_sub(self.bc(), 1);
        self.set_bc(bc);
        self.f = cp_flags(self.f, a, v, bc);
        if rep && bc != 0 && a.wrapping_sub(v) != 0 {
            self.pc = wrap16_sub(self.pc, 2);
            self.tick(21);
        } else {
            self.tick(16);
        }
    }

    /// INI, IND, INIR, INDR.
    fn exec_in_block<B: BusAccess>(&mut self, bus: &mut B, dec: bool, rep: bool)
        requires
            cycles_ok(*old(self)),
        ensures
            B::unaffected(final(bus).state()) == B::unaffected(old(bus).state()),
            ran(*old(self), *final(self)),
            (*final(self), final(bus).state()) == s_in_block::<B>(*old(self), old(bus).state(), dec, rep),
    {
        let v = bus.io_read(self.bc());
        let hl = self.hl();
        bus.mem_write(hl, v);
        if dec {
            self.set_hl(wrap16_sub(hl, 1));
        } else {
            self.set_hl(wrap16(hl, 1));
        }
        self.b = self.b.wrapping_sub(1);
        let b = self.b;
        if !rep {
            self.f = mk_flags(b >= 0x80, b == 0, false, false, false, false, true, false);
            self.tick(16);
        } else if b != 0 {
            self.pc = wrap16_sub(self.pc, 2);
            self.tick(21);
        } else {
            self.f = FLAG_Z | FLAG_N;
            self.tick(16);
        }
    }

    /// OUTI, OUTD, OTIR, OTDR.
    fn exec_out_block<B: BusAccess>(&mut self, bus: &mut B, dec: bool, rep: bool)
        requires
            cycles_ok(*old(self)),
        ensures
            B::unaffected(final(bus).state()) == B::unaffected(old(bus).state()),
            ran(*old(self), *final(self)),
            (*final(self), final(bus).state()) == s_out_block::<B>(*old(self), old(bus).state(), dec, rep),
    {
        let hl = self.hl();
        let v = bus.mem_read(hl);
        if dec {
            self.set_hl(wrap16_sub(hl, 1));
        } else {
            self.set_hl(wrap16(hl, 1));
        }
        self.b = self.b.wrapping_sub(1);
        let b = self.b;
        bus.io_write(self.bc(), v);
        if !rep {
            self.f = mk_flags(b >= 0x80, b == 0, false, false, false, false, true, false);
            self.tick(16);
        } else if b != 0 {
            self.pc = wrap16_sub(self.pc, 2);
            self.tick(21);
        } else {
            self.f = FLAG_Z | FLAG_N;
            self.tick(16);
        }
    }
}

} // verus!
