//! Mathematical model of the Z80 core: flag words, ALU results and the
//! effect of executing one instruction, threaded through the bus model.
use vstd::prelude::*;
use crate::msx::z80::{Z80, BusAccess, FLAG_S, FLAG_Z, FLAG_Y, FLAG_H, FLAG_X, FLAG_PV, FLAG_N, FLAG_C};

verus! {

// ── integer helpers ─────────────────────────────────────────────────────────

/// Reduce an integer into a byte (two's complement wrap-around).
pub open spec fn w8(x: int) -> u8 {
    (x % 256) as u8
}

/// Reduce an integer into a 16-bit word (two's complement wrap-around).
pub open spec fn w16(x: int) -> u16 {
    (x % 65536) as u16
}

/// A 16-bit word from its high and low bytes.
pub open spec fn pair(hi: u8, lo: u8) -> u16 {
    (hi as int * 256 + lo as int) as u16
}

pub open spec fn hi_byte(v: u16) -> u8 {
    (v as int / 256) as u8
}

pub open spec fn lo_byte(v: u16) -> u8 {
    (v as int % 256) as u8
}

/// A displacement byte read as a signed offset.
pub open spec fn sext(d: u8) -> int {
    if d < 128 { d as int } else { d as int - 256 }
}

/// Bit 7 of a byte (the sign of a signed byte).
pub open spec fn sign8(v: u8) -> bool {
    v >= 128
}

pub open spec fn sign16(v: u16) -> bool {
    v >= 0x8000
}

/// Bit 5 of a byte (copied into the undocumented Y flag).
pub open spec fn bit5(v: u8) -> bool {
    v & 0x20 != 0
}

/// Bit 3 of a byte (copied into the undocumented X flag).
pub open spec fn bit3(v: u8) -> bool {
    v & 0x08 != 0
}

pub open spec fn bool_int(b: bool) -> int {
    if b { 1 } else { 0 }
}

/// Number of set bits of a byte.
pub open spec fn popcount(v: u8) -> int {
    (v % 2) as int + (v / 2 % 2) as int + (v / 4 % 2) as int + (v / 8 % 2) as int
        + (v / 16 % 2) as int + (v / 32 % 2) as int + (v / 64 % 2) as int + (v / 128 % 2) as int
}

/// Even parity (the P/V flag after logic operations).
pub open spec fn even_parity(v: u8) -> bool {
    popcount(v) % 2 == 0
}

// ── flag word ───────────────────────────────────────────────────────────────

/// The flag register with the given flags set and the others clear.
pub open spec fn flags(s: bool, z: bool, y: bool, h: bool, x: bool, pv: bool, n: bool, c: bool) -> u8 {
    (if s { FLAG_S } else { 0u8 }) | (if z { FLAG_Z } else { 0u8 }) | (if y { FLAG_Y } else { 0u8 })
        | (if h { FLAG_H } else { 0u8 }) | (if x { FLAG_X } else { 0u8 }) | (if pv { FLAG_PV } else { 0u8 })
        | (if n { FLAG_N } else { 0u8 }) | (if c { FLAG_C } else { 0u8 })
}

pub open spec fn flag_set(f: u8, mask: u8) -> bool {
    f & mask != 0
}

/// Flags after a load or logic result `v`: sign, zero, Y, X and parity from
/// `v`, with the half-carry and carry given.
pub open spec fn szyxp(v: u8, h: bool, c: bool) -> u8 {
    flags(sign8(v), v == 0, bit5(v), h, bit3(v), even_parity(v), false, c)
}

// ── ALU results: (result, flags) ────────────────────────────────────────────

/// ADD / ADC: `a + v + carry`.
pub open spec fn alu_add(a: u8, v: u8, carry: bool) -> (u8, u8) {
    let ci = bool_int(carry);
    let r = w8(a + v + ci);
    (r, flags(sign8(r), r == 0, bit5(r), (a % 16) + (v % 16) + ci > 15, bit3(r),
        sign8(a) == sign8(v) && sign8(r) != sign8(a), false, a + v + ci > 255))
}

/// SUB / SBC: `a - v - carry`.
pub open spec fn alu_sub(a: u8, v: u8, carry: bool) -> (u8, u8) {
    let ci = bool_int(carry);
    let r = w8(a - v - ci);
    (r, flags(sign8(r), r == 0, bit5(r), (a % 16) < (v % 16) + ci, bit3(r),
        sign8(a) != sign8(v) && sign8(r) != sign8(a), true, (a as int) < v + ci))
}

/// CP: the flags of `a - v`, with Y and X taken from the operand.
pub open spec fn alu_cp(a: u8, v: u8) -> u8 {
    let r = w8(a - v);
    flags(sign8(r), r == 0, bit5(v), (a % 16) < (v % 16), bit3(v),
        sign8(a) != sign8(v) && sign8(r) != sign8(a), true, (a as int) < (v as int))
}

pub open spec fn alu_and(a: u8, v: u8) -> (u8, u8) {
    (a & v, szyxp(a & v, true, false))
}

pub open spec fn alu_or(a: u8, v: u8) -> (u8, u8) {
    (a | v, szyxp(a | v, false, false))
}

pub open spec fn alu_xor(a: u8, v: u8) -> (u8, u8) {
    (a ^ v, szyxp(a ^ v, false, false))
}

/// INC r: carry preserved.
pub open spec fn alu_inc(f: u8, v: u8) -> (u8, u8) {
    let r = w8(v + 1);
    (r, flags(sign8(r), r == 0, bit5(r), v % 16 == 15, bit3(r), v == 0x7F, false, flag_set(f, FLAG_C)))
}

/// DEC r: carry preserved.
pub open spec fn alu_dec(f: u8, v: u8) -> (u8, u8) {
    let r = w8(v - 1);
    (r, flags(sign8(r), r == 0, bit5(r), v % 16 == 0, bit3(r), v == 0x80, true, flag_set(f, FLAG_C)))
}

/// ADD HL,rr: S, Z and P/V preserved.
pub open spec fn alu_add16(f: u8, x: u16, y: u16) -> (u16, u8) {
    let r = w16(x + y);
    (r, flags(flag_set(f, FLAG_S), flag_set(f, FLAG_Z), bit5(hi_byte(r)), (x % 4096) + (y % 4096) > 4095,
        bit3(hi_byte(r)), flag_set(f, FLAG_PV), false, x + y > 65535))
}

/// ADC HL,rr.
pub open spec fn alu_adc16(f: u8, x: u16, y: u16) -> (u16, u8) {
    let ci = bool_int(flag_set(f, FLAG_C));
    let r = w16(x + y + ci);
    (r, flags(sign16(r), r == 0, bit5(hi_byte(r)), (x % 4096) + (y % 4096) + ci > 4095,
        bit3(hi_byte(r)), sign16(x) == sign16(y) && sign16(r) != sign16(x), false, x + y + ci > 65535))
}

/// SBC HL,rr.
pub open spec fn alu_sbc16(f: u8, x: u16, y: u16) -> (u16, u8) {
    let ci = bool_int(flag_set(f, FLAG_C));
    let r = w16(x - y - ci);
    (r, flags(sign16(r), r == 0, bit5(hi_byte(r)), (x % 4096) < (y % 4096) + ci,
        bit3(hi_byte(r)), sign16(x) != sign16(y) && sign16(r) != sign16(x), true, (x as int) < y + ci))
}

/// The rotations and shifts of the CB table, by their index 0..7
/// (RLC, RRC, RL, RR, SLA, SRA, SLL, SRL), as (result, carry out).
pub open spec fn shift_op(k: u8, v: u8, cin: bool) -> (u8, bool) {
    let c: u8 = if cin { 1 } else { 0 };
    if k == 0 {
        ((v << 1u8) | (v >> 7u8), v >= 128)
    } else if k == 1 {
        ((v >> 1u8) | ((v & 1) << 7u8), v % 2 == 1)
    } else if k == 2 {
        ((v << 1u8) | c, v >= 128)
    } else if k == 3 {
        ((v >> 1u8) | (c << 7u8), v % 2 == 1)
    } else if k == 4 {
        (v << 1u8, v >= 128)
    } else if k == 5 {
        ((v >> 1u8) | (v & 0x80), v % 2 == 1)
    } else if k == 6 {
        ((v << 1u8) | 1, v >= 128)
    } else {
        (v >> 1u8, v % 2 == 1)
    }
}

/// A CB-table rotation or shift: result and flags.
pub open spec fn alu_shift(k: u8, f: u8, v: u8) -> (u8, u8) {
    let (r, c) = shift_op(k, v, flag_set(f, FLAG_C));
    (r, szyxp(r, false, c))
}

/// BIT b,v: the flags it leaves.
pub open spec fn alu_bit(f: u8, b: u8, v: u8) -> u8 {
    let m = v & (1u8 << b);
    flags(m & 0x80 != 0, m == 0, bit5(v), true, bit3(v), m == 0, false, flag_set(f, FLAG_C))
}

/// The accumulator rotations RLCA, RRCA, RLA, RRA (index 0..3): S, Z, P/V preserved.
pub open spec fn acc_rotate(k: u8, a: u8, f: u8) -> (u8, u8) {
    let (r, c) = shift_op(k, a, flag_set(f, FLAG_C));
    (r, flags(flag_set(f, FLAG_S), flag_set(f, FLAG_Z), bit5(r), false, bit3(r), flag_set(f, FLAG_PV), false, c))
}

/// DAA.
pub open spec fn alu_daa(a: u8, f: u8) -> (u8, u8) {
    let cf = flag_set(f, FLAG_C);
    let hf = flag_set(f, FLAG_H);
    let nf = flag_set(f, FLAG_N);
    let low_fix = hf || a % 16 > 9;
    let high_fix = cf || a > 0x99;
    let corr = (if low_fix { 6int } else { 0 }) + (if high_fix { 0x60int } else { 0 });
    let r = if nf { w8(a - corr) } else { w8(a + corr) };
    let h = if nf { hf && a % 16 < 6 } else { a % 16 > 9 };
    (r, flags(sign8(r), r == 0, bit5(r), h, bit3(r), even_parity(r), nf, high_fix))
}

// ── CPU state helpers ──────────────────────────────────────────────────────

pub open spec fn next_r(r: u8) -> u8 {
    (r & 0x80) | (w8(r + 1) & 0x7F)
}

pub open spec fn bc(c: Z80) -> u16 { pair(c.b, c.c) }

pub open spec fn de(c: Z80) -> u16 { pair(c.d, c.e) }

pub open spec fn hl(c: Z80) -> u16 { pair(c.h, c.l) }

pub open spec fn af(c: Z80) -> u16 { pair(c.a, c.f) }

pub open spec fn with_bc(c: Z80, v: u16) -> Z80 { Z80 { b: hi_byte(v), c: lo_byte(v), ..c } }

pub open spec fn with_de(c: Z80, v: u16) -> Z80 { Z80 { d: hi_byte(v), e: lo_byte(v), ..c } }

pub open spec fn with_hl(c: Z80, v: u16) -> Z80 { Z80 { h: hi_byte(v), l: lo_byte(v), ..c } }

pub open spec fn with_af(c: Z80, v: u16) -> Z80 { Z80 { a: hi_byte(v), f: lo_byte(v), ..c } }

pub open spec fn tick(c: Z80, n: int) -> Z80 {
    Z80 { cycles: (c.cycles + n) as u64, ..c }
}

/// The 8-bit register with code `r` (B C D E H L - A); code 6 reads as 0.
pub open spec fn reg(c: Z80, r: u8) -> u8 {
    if r == 0 { c.b } else if r == 1 { c.c } else if r == 2 { c.d } else if r == 3 { c.e }
    else if r == 4 { c.h } else if r == 5 { c.l } else if r == 7 { c.a } else { 0 }
}

/// Write the 8-bit register with code `r`; code 6 (and above 7) changes nothing.
pub open spec fn with_reg(c: Z80, r: u8, v: u8) -> Z80 {
    if r == 0 { Z80 { b: v, ..c } } else if r == 1 { Z80 { c: v, ..c } }
    else if r == 2 { Z80 { d: v, ..c } } else if r == 3 { Z80 { e: v, ..c } }
    else if r == 4 { Z80 { h: v, ..c } } else if r == 5 { Z80 { l: v, ..c } }
    else if r == 7 { Z80 { a: v, ..c } } else { c }
}

/// The register pair with code `p` (BC DE HL SP).
pub open spec fn rp(c: Z80, p: u8) -> u16 {
    if p == 0 { bc(c) } else if p == 1 { de(c) } else if p == 2 { hl(c) } else if p == 3 { c.sp } else { 0 }
}

pub open spec fn with_rp(c: Z80, p: u8, v: u16) -> Z80 {
    if p == 0 { with_bc(c, v) } else if p == 1 { with_de(c, v) } else if p == 2 { with_hl(c, v) }
    else if p == 3 { Z80 { sp: v, ..c } } else { c }
}

/// Condition code `cc` (NZ Z NC C PO PE P M).
pub open spec fn cond(c: Z80, cc: u8) -> bool {
    let f = c.f;
    if cc == 0 { !flag_set(f, FLAG_Z) } else if cc == 1 { flag_set(f, FLAG_Z) }
    else if cc == 2 { !flag_set(f, FLAG_C) } else if cc == 3 { flag_set(f, FLAG_C) }
    else if cc == 4 { !flag_set(f, FLAG_PV) } else if cc == 5 { flag_set(f, FLAG_PV) }
    else if cc == 6 { !flag_set(f, FLAG_S) } else { flag_set(f, FLAG_S) }
}

/// Apply ALU operation `k` (ADD ADC SUB SBC AND XOR OR CP) to A and `v`.
pub open spec fn alu_op(c: Z80, k: u8, v: u8) -> Z80 {
    let cy = flag_set(c.f, FLAG_C);
    if k == 0 { let (a, f) = alu_add(c.a, v, false); Z80 { a, f, ..c } }
    else if k == 1 { let (a, f) = alu_add(c.a, v, cy); Z80 { a, f, ..c } }
    else if k == 2 { let (a, f) = alu_sub(c.a, v, false); Z80 { a, f, ..c } }
    else if k == 3 { let (a, f) = alu_sub(c.a, v, cy); Z80 { a, f, ..c } }
    else if k == 4 { let (a, f) = alu_and(c.a, v); Z80 { a, f, ..c } }
    else if k == 5 { let (a, f) = alu_xor(c.a, v); Z80 { a, f, ..c } }
    else if k == 6 { let (a, f) = alu_or(c.a, v); Z80 { a, f, ..c } }
    else { Z80 { f: alu_cp(c.a, v), ..c } }
}

// ── bus-threaded primitives ────────────────────────────────────────────────

pub open spec fn s_read<B: BusAccess>(s: B::BusState, addr: u16) -> (B::BusState, u8) {
    B::spec_mem_read(s, addr)
}

pub open spec fn s_write<B: BusAccess>(s: B::BusState, addr: u16, v: u8) -> B::BusState {
    B::spec_mem_write(s, addr, v)
}

/// Fetch the byte at PC, advance PC and the refresh counter.
pub open spec fn s_fetch<B: BusAccess>(c: Z80, s: B::BusState) -> (Z80, B::BusState, u8) {
    let (s1, v) = s_read::<B>(s, c.pc);
    (Z80 { pc: w16(c.pc + 1), r: next_r(c.r), ..c }, s1, v)
}

/// Fetch a little-endian word at PC.
pub open spec fn s_fetch16<B: BusAccess>(c: Z80, s: B::BusState) -> (Z80, B::BusState, u16) {
    let (c1, s1, lo) = s_fetch::<B>(c, s);
    let (c2, s2, hi) = s_fetch::<B>(c1, s1);
    (c2, s2, pair(hi, lo))
}

pub open spec fn s_read16<B: BusAccess>(s: B::BusState, addr: u16) -> (B::BusState, u16) {
    let (s1, lo) = s_read::<B>(s, addr);
    let (s2, hi) = s_read::<B>(s1, w16(addr + 1));
    (s2, pair(hi, lo))
}

pub open spec fn s_write16<B: BusAccess>(s: B::BusState, addr: u16, v: u16) -> B::BusState {
    s_write::<B>(s_write::<B>(s, addr, lo_byte(v)), w16(addr + 1), hi_byte(v))
}

pub open spec fn s_push16<B: BusAccess>(c: Z80, s: B::BusState, v: u16) -> (Z80, B::BusState) {
    let sp = w16(c.sp - 2);
    (Z80 { sp, ..c }, s_write16::<B>(s, sp, v))
}

pub open spec fn s_pop16<B: BusAccess>(c: Z80, s: B::BusState) -> (Z80, B::BusState, u16) {
    let (s1, v) = s_read16::<B>(s, c.sp);
    (Z80 { sp: w16(c.sp + 2), ..c }, s1, v)
}

/// Push PC and jump.
pub open spec fn s_call<B: BusAccess>(c: Z80, s: B::BusState, target: u16) -> (Z80, B::BusState) {
    let (c1, s1) = s_push16::<B>(c, s, c.pc);
    (Z80 { pc: target, ..c1 }, s1)
}

// ── interrupts ─────────────────────────────────────────────────────────────

pub open spec fn s_nmi<B: BusAccess>(c: Z80, s: B::BusState) -> (Z80, B::BusState) {
    let c0 = Z80 { halted: false, iff2: c.iff1, iff1: false, ..c };
    let (c1, s1) = s_call::<B>(c0, s, 0x0066);
    (tick(c1, 11), s1)
}

pub open spec fn s_interrupt<B: BusAccess>(c: Z80, s: B::BusState, data: u8) -> (Z80, B::BusState) {
    if !c.iff1 {
        (c, s)
    } else {
        let c0 = Z80 { halted: false, iff1: false, iff2: false, ..c };
        if c.im == 0 {
            let (c1, s1) = s_call::<B>(c0, s, (data & 0x38) as u16);
            (tick(c1, 13), s1)
        } else if c.im == 1 {
            let (c1, s1) = s_call::<B>(c0, s, 0x0038);
            (tick(c1, 13), s1)
        } else if c.im == 2 {
            let vec_addr = pair(c.i, data & 0xFE);
            let (s1, target) = s_read16::<B>(s, vec_addr);
            let (c2, s2) = s_call::<B>(c0, s1, target);
            (tick(c2, 19), s2)
        } else {
            (c0, s)
        }
    }
}

// ── main table, x = 0 (opcodes 0x00..0x3F) ─────────────────────────────────

/// z = 0: NOP, EX AF,AF', DJNZ, JR, JR cc.
pub open spec fn s_x0_z0<B: BusAccess>(c: Z80, s: B::BusState, y: u8) -> (Z80, B::BusState) {
    if y == 0 {
        (tick(c, 4), s)
    } else if y == 1 {
        (tick(Z80 { a: c.a2, a2: c.a, f: c.f2, f2: c.f, ..c }, 4), s)
    } else if y == 2 {
        let (c1, s1, d) = s_fetch::<B>(c, s);
        let b = w8(c1.b - 1);
        if b != 0 {
            (tick(Z80 { b, pc: w16(c1.pc + sext(d)), ..c1 }, 13), s1)
        } else {
            (tick(Z80 { b, ..c1 }, 8), s1)
        }
    } else if y == 3 {
        let (c1, s1, d) = s_fetch::<B>(c, s);
        (tick(Z80 { pc: w16(c1.pc + sext(d)), ..c1 }, 12), s1)
    } else {
        let (c1, s1, d) = s_fetch::<B>(c, s);
        if cond(c1, (y - 4) as u8) {
            (tick(Z80 { pc: w16(c1.pc + sext(d)), ..c1 }, 12), s1)
        } else {
            (tick(c1, 7), s1)
        }
    }
}

/// z = 1: LD rr,nn (q = 0) and ADD HL,rr (q = 1).
pub open spec fn s_x0_z1<B: BusAccess>(c: Z80, s: B::BusState, y: u8) -> (Z80, B::BusState) {
    let p = y / 2;
    if y % 2 == 0 {
        let (c1, s1, v) = s_fetch16::<B>(c, s);
        (tick(with_rp(c1, p, v), 10), s1)
    } else {
        let (r, f) = alu_add16(c.f, hl(c), rp(c, p));
        (tick(with_hl(Z80 { f, ..c }, r), 11), s)
    }
}

/// z = 2: the indirect loads through BC, DE and absolute addresses.
pub open spec fn s_x0_z2<B: BusAccess>(c: Z80, s: B::BusState, y: u8) -> (Z80, B::BusState) {
    if y == 0 {
        (tick(c, 7), s_write::<B>(s, bc(c), c.a))
    } else if y == 1 {
        let (s1, v) = s_read::<B>(s, bc(c));
        (tick(Z80 { a: v, ..c }, 7), s1)
    } else if y == 2 {
        (tick(c, 7), s_write::<B>(s, de(c), c.a))
    } else if y == 3 {
        let (s1, v) = s_read::<B>(s, de(c));
        (tick(Z80 { a: v, ..c }, 7), s1)
    } else if y == 4 {
        let (c1, s1, addr) = s_fetch16::<B>(c, s);
        (tick(c1, 16), s_write16::<B>(s1, addr, hl(c1)))
    } else if y == 5 {
        let (c1, s1, addr) = s_fetch16::<B>(c, s);
        let (s2, v) = s_read16::<B>(s1, addr);
        (tick(with_hl(c1, v), 16), s2)
    } else if y == 6 {
        let (c1, s1, addr) = s_fetch16::<B>(c, s);
        (tick(c1, 13), s_write::<B>(s1, addr, c1.a))
    } else {
        let (c1, s1, addr) = s_fetch16::<B>(c, s);
        let (s2, v) = s_read::<B>(s1, addr);
        (tick(Z80 { a: v, ..c1 }, 13), s2)
    }
}

/// z = 3: INC rr (q = 0), DEC rr (q = 1).
pub open spec fn s_x0_z3(c: Z80, y: u8) -> Z80 {
    let p = y / 2;
    if y % 2 == 0 {
        tick(with_rp(c, p, w16(rp(c, p) + 1)), 6)
    } else {
        tick(with_rp(c, p, w16(rp(c, p) - 1)), 6)
    }
}

/// z = 4 / 5: INC r / DEC r, including (HL).
pub open spec fn s_x0_incdec<B: BusAccess>(c: Z80, s: B::BusState, y: u8, dec: bool) -> (Z80, B::BusState) {
    if y == 6 {
        let addr = hl(c);
        let (s1, v) = s_read::<B>(s, addr);
        let (r, f) = if dec { alu_dec(c.f, v) } else { alu_inc(c.f, v) };
        (tick(Z80 { f, ..c }, 11), s_write::<B>(s1, addr, r))
    } else {
        let (r, f) = if dec { alu_dec(c.f, reg(c, y)) } else { alu_inc(c.f, reg(c, y)) };
        (tick(with_reg(Z80 { f, ..c }, y, r), 4), s)
    }
}

/// z = 6: LD r,n, including LD (HL),n.
pub open spec fn s_x0_z6<B: BusAccess>(c: Z80, s: B::BusState, y: u8) -> (Z80, B::BusState) {
    let (c1, s1, n) = s_fetch::<B>(c, s);
    if y == 6 {
        (tick(c1, 10), s_write::<B>(s1, hl(c1), n))
    } else {
        (tick(with_reg(c1, y, n), 7), s1)
    }
}

/// z = 7: RLCA RRCA RLA RRA DAA CPL SCF CCF.
pub open spec fn s_x0_z7(c: Z80, y: u8) -> Z80 {
    let f = c.f;
    if y < 4 {
        let (a, f1) = acc_rotate(y, c.a, f);
        tick(Z80 { a, f: f1, ..c }, 4)
    } else if y == 4 {
        let (a, f1) = alu_daa(c.a, f);
        tick(Z80 { a, f: f1, ..c }, 4)
    } else if y == 5 {
        let a = !c.a;
        tick(Z80 { a, f: flags(flag_set(f, FLAG_S), flag_set(f, FLAG_Z), bit5(a), true, bit3(a), flag_set(f, FLAG_PV), true, flag_set(f, FLAG_C)), ..c }, 4)
    } else if y == 6 {
        tick(Z80 { f: flags(flag_set(f, FLAG_S), flag_set(f, FLAG_Z), bit5(c.a), false, bit3(c.a), flag_set(f, FLAG_PV), false, true), ..c }, 4)
    } else {
        let old_c = flag_set(f, FLAG_C);
        tick(Z80 { f: flags(flag_set(f, FLAG_S), flag_set(f, FLAG_Z), bit5(c.a), old_c, bit3(c.a), flag_set(f, FLAG_PV), false, !old_c), ..c }, 4)
    }
}

pub open spec fn s_x0<B: BusAccess>(c: Z80, s: B::BusState, op: u8) -> (Z80, B::BusState) {
    let y = (op / 8) % 8;
    let z = op % 8;
    if z == 0 { s_x0_z0::<B>(c, s, y) }
    else if z == 1 { s_x0_z1::<B>(c, s, y) }
    else if z == 2 { s_x0_z2::<B>(c, s, y) }
    else if z == 3 { (s_x0_z3(c, y), s) }
    else if z == 4 { s_x0_incdec::<B>(c, s, y, false) }
    else if z == 5 { s_x0_incdec::<B>(c, s, y, true) }
    else if z == 6 { s_x0_z6::<B>(c, s, y) }
    else { (s_x0_z7(c, y), s) }
}

// ── x = 1: LD r,r' and HALT; x = 2: ALU r ──────────────────────────────────

pub open spec fn s_x1<B: BusAccess>(c: Z80, s: B::BusState, op: u8) -> (Z80, B::BusState) {
    let dst = (op / 8) % 8;
    let src = op % 8;
    if op == 0x76 {
        (tick(Z80 { halted: true, pc: w16(c.pc - 1), ..c }, 4), s)
    } else if src == 6 {
        let (s1, v) = s_read::<B>(s, hl(c));
        (tick(with_reg(c, dst, v), 7), s1)
    } else if dst == 6 {
        (tick(c, 7), s_write::<B>(s, hl(c), reg(c, src)))
    } else {
        (tick(with_reg(c, dst, reg(c, src)), 4), s)
    }
}

pub open spec fn s_x2<B: BusAccess>(c: Z80, s: B::BusState, op: u8) -> (Z80, B::BusState) {
    let k = (op / 8) % 8;
    let src = op % 8;
    if src == 6 {
        let (s1, v) = s_read::<B>(s, hl(c));
        (tick(alu_op(c, k, v), 7), s1)
    } else {
        (tick(alu_op(c, k, reg(c, src)), 4), s)
    }
}

// ── x = 3 (opcodes 0xC0..0xFF), prefixes excluded ──────────────────────────

/// RET cc.
pub open spec fn s_ret_cc<B: BusAccess>(c: Z80, s: B::BusState, y: u8) -> (Z80, B::BusState) {
    if cond(c, y) {
        let (c1, s1, v) = s_pop16::<B>(c, s);
        (tick(Z80 { pc: v, ..c1 }, 11), s1)
    } else {
        (tick(c, 5), s)
    }
}

/// z = 1: POP rr (q = 0); RET, EXX, JP (HL), LD SP,HL (q = 1).
pub open spec fn s_x3_z1<B: BusAccess>(c: Z80, s: B::BusState, y: u8) -> (Z80, B::BusState) {
    let p = y / 2;
    if y % 2 == 0 {
        let (c1, s1, v) = s_pop16::<B>(c, s);
        let c2 = if p == 3 { with_af(c1, v) } else { with_rp(c1, p, v) };
        (tick(c2, 10), s1)
    } else if p == 0 {
        let (c1, s1, v) = s_pop16::<B>(c, s);
        (tick(Z80 { pc: v, ..c1 }, 10), s1)
    } else if p == 1 {
        (tick(Z80 { b: c.b2, b2: c.b, c: c.c2, c2: c.c, d: c.d2, d2: c.d, e: c.e2, e2: c.e,
            h: c.h2, h2: c.h, l: c.l2, l2: c.l, ..c }, 4), s)
    } else if p == 2 {
        (tick(Z80 { pc: hl(c), ..c }, 4), s)
    } else {
        (tick(Z80 { sp: hl(c), ..c }, 6), s)
    }
}

/// JP cc,nn.
pub open spec fn s_jp_cc<B: BusAccess>(c: Z80, s: B::BusState, y: u8) -> (Z80, B::BusState) {
    let (c1, s1, addr) = s_fetch16::<B>(c, s);
    if cond(c1, y) { (tick(Z80 { pc: addr, ..c1 }, 10), s1) } else { (tick(c1, 10), s1) }
}

/// CALL cc,nn.
pub open spec fn s_call_cc<B: BusAccess>(c: Z80, s: B::BusState, y: u8) -> (Z80, B::BusState) {
    let (c1, s1, addr) = s_fetch16::<B>(c, s);
    if cond(c1, y) {
        let (c2, s2) = s_call::<B>(c1, s1, addr);
        (tick(c2, 17), s2)
    } else {
        (tick(c1, 10), s1)
    }
}

/// PUSH rr (BC DE HL AF).
pub open spec fn s_push_rr<B: BusAccess>(c: Z80, s: B::BusState, p: u8) -> (Z80, B::BusState) {
    let v = if p == 3 { af(c) } else { rp(c, p) };
    let (c1, s1) = s_push16::<B>(c, s, v);
    (tick(c1, 11), s1)
}

/// ALU n.
pub open spec fn s_alu_n<B: BusAccess>(c: Z80, s: B::BusState, y: u8) -> (Z80, B::BusState) {
    let (c1, s1, n) = s_fetch::<B>(c, s);
    (tick(alu_op(c1, y, n), 7), s1)
}

/// RST y*8.
pub open spec fn s_rst<B: BusAccess>(c: Z80, s: B::BusState, y: u8) -> (Z80, B::BusState) {
    let (c1, s1) = s_call::<B>(c, s, (y as int * 8) as u16);
    (tick(c1, 11), s1)
}

/// z = 3, without the CB prefix: JP nn, OUT (n),A, IN A,(n), EX (SP),HL, EX DE,HL, DI, EI.
pub open spec fn s_x3_z3<B: BusAccess>(c: Z80, s: B::BusState, y: u8) -> (Z80, B::BusState) {
    if y == 0 {
        let (c1, s1, addr) = s_fetch16::<B>(c, s);
        (tick(Z80 { pc: addr, ..c1 }, 10), s1)
    } else if y == 2 {
        let (c1, s1, n) = s_fetch::<B>(c, s);
        (tick(c1, 11), B::spec_io_write(s1, pair(c1.a, n), c1.a))
    } else if y == 3 {
        let (c1, s1, n) = s_fetch::<B>(c, s);
        let (s2, v) = B::spec_io_read(s1, pair(c1.a, n));
        (tick(Z80 { a: v, ..c1 }, 11), s2)
    } else if y == 4 {
        let (s1, m) = s_read16::<B>(s, c.sp);
        let s2 = s_write16::<B>(s1, c.sp, hl(c));
        (tick(with_hl(c, m), 19), s2)
    } else if y == 5 {
        (tick(Z80 { d: c.h, h: c.d, e: c.l, l: c.e, ..c }, 4), s)
    } else if y == 6 {
        (tick(Z80 { iff1: false, iff2: false, ..c }, 4), s)
    } else {
        (tick(Z80 { iff1: true, iff2: true, ..c }, 4), s)
    }
}

// ── CB prefix ──────────────────────────────────────────────────────────────

/// Write back a CB-table result to register `r` or to (HL).
pub open spec fn s_cb_writeback<B: BusAccess>(c: Z80, s: B::BusState, r: u8, v: u8) -> (Z80, B::BusState) {
    if r == 6 {
        (tick(c, 15), s_write::<B>(s, hl(c), v))
    } else {
        (tick(with_reg(c, r, v), 8), s)
    }
}

pub open spec fn s_cb<B: BusAccess>(c: Z80, s: B::BusState) -> (Z80, B::BusState) {
    let (c1, s1, op) = s_fetch::<B>(c, s);
    let r = op % 8;
    let k = (op / 8) % 8;
    let x = op / 64;
    let (s2, v) = if r == 6 { s_read::<B>(s1, hl(c1)) } else { (s1, reg(c1, r)) };
    if x == 0 {
        let (res, f) = alu_shift(k, c1.f, v);
        s_cb_writeback::<B>(Z80 { f, ..c1 }, s2, r, res)
    } else if x == 1 {
        (tick(Z80 { f: alu_bit(c1.f, k, v), ..c1 }, if r == 6 { 12 } else { 8 }), s2)
    } else if x == 2 {
        s_cb_writeback::<B>(c1, s2, r, v & !(1u8 << k))
    } else {
        s_cb_writeback::<B>(c1, s2, r, v | (1u8 << k))
    }
}

// ── DD / FD prefixes: IX and IY ────────────────────────────────────────────

pub open spec fn xy(c: Z80, iy: bool) -> u16 {
    if iy { c.iy } else { c.ix }
}

pub open spec fn with_xy(c: Z80, iy: bool, v: u16) -> Z80 {
    if iy { Z80 { iy: v, ..c } } else { Z80 { ix: v, ..c } }
}

pub open spec fn with_xyh(c: Z80, iy: bool, v: u8) -> Z80 {
    with_xy(c, iy, pair(v, lo_byte(xy(c, iy))))
}

pub open spec fn with_xyl(c: Z80, iy: bool, v: u8) -> Z80 {
    with_xy(c, iy, pair(hi_byte(xy(c, iy)), v))
}

/// The operand address (XY+d).
pub open spec fn xy_addr(c: Z80, iy: bool, d: u8) -> u16 {
    w16(xy(c, iy) + sext(d))
}

/// Instructions of the DD/FD table that touch (XY+d).
pub open spec fn s_xy_mem<B: BusAccess>(c: Z80, s: B::BusState, op: u8, iy: bool) -> (Z80, B::BusState) {
    let (c1, s1, d) = s_fetch::<B>(c, s);
    let addr = xy_addr(c1, iy, d);
    if op == 0x34 || op == 0x35 {
        let (s2, v) = s_read::<B>(s1, addr);
        let (r, f) = if op == 0x34 { alu_inc(c1.f, v) } else { alu_dec(c1.f, v) };
        (tick(Z80 { f, ..c1 }, 23), s_write::<B>(s2, addr, r))
    } else if op == 0x36 {
        let (c2, s2, n) = s_fetch::<B>(c1, s1);
        (tick(c2, 19), s_write::<B>(s2, xy_addr(c2, iy, d), n))
    } else if 0x40 <= op < 0x80 && op % 8 == 6 {
        let (s2, v) = s_read::<B>(s1, addr);
        (tick(with_reg(c1, (op / 8) % 8, v), 19), s2)
    } else if 0x70 <= op < 0x78 {
        (tick(c1, 19), s_write::<B>(s1, addr, reg(c1, op % 8)))
    } else {
        let (s2, v) = s_read::<B>(s1, addr);
        (tick(alu_op(c1, (op / 8) % 8, v), 19), s2)
    }
}

/// Does a DD/FD opcode use a displacement byte (XY+d)?
pub open spec fn xy_uses_mem(op: u8) -> bool {
    op == 0x34 || op == 0x35 || op == 0x36
        || (0x40 <= op < 0x80 && op % 8 == 6 && op != 0x76)
        || (0x70 <= op < 0x78 && op != 0x76)
        || (0x80 <= op < 0xC0 && op % 8 == 6)
}

/// Register transfers between B..E, A and the halves of XY.
pub open spec fn s_xy_ld8(c: Z80, op: u8, iy: bool) -> Z80 {
    let hi = hi_byte(xy(c, iy));
    let lo = lo_byte(xy(c, iy));
    let dst = (op / 8) % 8;
    let src = op % 8;
    if 0x40 <= op < 0x60 || 0x78 <= op < 0x80 {
        // LD B/C/D/E/A, XYH or XYL
        tick(with_reg(c, dst, if src == 4 { hi } else { lo }), 8)
    } else if 0x60 <= op < 0x68 {
        // LD XYH, r
        let v = if src == 4 { hi } else if src == 5 { lo } else { reg(c, src) };
        tick(with_xyh(c, iy, v), 8)
    } else {
        // LD XYL, r
        let v = if src == 4 { hi } else if src == 5 { lo } else { reg(c, src) };
        tick(with_xyl(c, iy, v), 8)
    }
}

/// Is the opcode one of the DD/FD register transfers with XYH / XYL?
pub open spec fn xy_is_ld8(op: u8) -> bool {
    op == 0x44 || op == 0x45 || op == 0x4C || op == 0x4D || op == 0x54 || op == 0x55
        || op == 0x5C || op == 0x5D || op == 0x7C || op == 0x7D
        || (0x60 <= op < 0x70 && op % 8 != 6)
}

/// The DD/FD table (after the prefix), for an opcode already fetched.
pub open spec fn s_xy<B: BusAccess>(c: Z80, s: B::BusState, op: u8, iy: bool) -> (Z80, B::BusState) {
    let v = xy(c, iy);
    if op == 0x21 {
        let (c1, s1, n) = s_fetch16::<B>(c, s);
        (tick(with_xy(c1, iy, n), 14), s1)
    } else if op == 0x22 {
        let (c1, s1, addr) = s_fetch16::<B>(c, s);
        (tick(c1, 20), s_write16::<B>(s1, addr, xy(c1, iy)))
    } else if op == 0x23 {
        (tick(with_xy(c, iy, w16(v + 1)), 10), s)
    } else if op == 0x2B {
        (tick(with_xy(c, iy, w16(v - 1)), 10), s)
    } else if op == 0x24 || op == 0x25 {
        let (r, f) = if op == 0x24 { alu_inc(c.f, hi_byte(v)) } else { alu_dec(c.f, hi_byte(v)) };
        (tick(with_xyh(Z80 { f, ..c }, iy, r), 8), s)
    } else if op == 0x2C || op == 0x2D {
        let (r, f) = if op == 0x2C { alu_inc(c.f, lo_byte(v)) } else { alu_dec(c.f, lo_byte(v)) };
        (tick(with_xyl(Z80 { f, ..c }, iy, r), 8), s)
    } else if op == 0x26 {
        let (c1, s1, n) = s_fetch::<B>(c, s);
        (tick(with_xyh(c1, iy, n), 11), s1)
    } else if op == 0x2E {
        let (c1, s1, n) = s_fetch::<B>(c, s);
        (tick(with_xyl(c1, iy, n), 11), s1)
    } else if op == 0x09 || op == 0x19 || op == 0x29 || op == 0x39 {
        let p = op / 16;
        let other = if p == 2 { v } else { rp(c, p) };
        let (r, f) = alu_add16(c.f, v, other);
        (tick(with_xy(Z80 { f, ..c }, iy, r), 15), s)
    } else if op == 0x2A {
        let (c1, s1, addr) = s_fetch16::<B>(c, s);
        let (s2, n) = s_read16::<B>(s1, addr);
        (tick(with_xy(c1, iy, n), 20), s2)
    } else if xy_uses_mem(op) {
        s_xy_mem::<B>(c, s, op, iy)
    } else if xy_is_ld8(op) {
        (s_xy_ld8(c, op, iy), s)
    } else if 0x80 <= op < 0xC0 && (op % 8 == 4 || op % 8 == 5) {
        let operand = if op % 8 == 4 { hi_byte(v) } else { lo_byte(v) };
        (tick(alu_op(c, (op / 8) % 8, operand), 8), s)
    } else if op == 0xE1 {
        let (c1, s1, n) = s_pop16::<B>(c, s);
        (tick(with_xy(c1, iy, n), 14), s1)
    } else if op == 0xE3 {
        let (s1, m) = s_read16::<B>(s, c.sp);
        let s2 = s_write16::<B>(s1, c.sp, v);
        (tick(with_xy(c, iy, m), 23), s2)
    } else if op == 0xE5 {
        let (c1, s1) = s_push16::<B>(c, s, v);
        (tick(c1, 15), s1)
    } else if op == 0xE9 {
        (tick(Z80 { pc: v, ..c }, 8), s)
    } else if op == 0xF9 {
        (tick(Z80 { sp: v, ..c }, 10), s)
    } else if op == 0xCB {
        s_xy_cb::<B>(c, s, iy)
    } else {
        (tick(c, 4), s)
    }
}

/// DD CB d op / FD CB d op.
pub open spec fn s_xy_cb<B: BusAccess>(c: Z80, s: B::BusState, iy: bool) -> (Z80, B::BusState) {
    let (c1, s1, d) = s_fetch::<B>(c, s);
    let (c2, s2, op) = s_fetch::<B>(c1, s1);
    let addr = xy_addr(c2, iy, d);
    let (s3, v) = s_read::<B>(s2, addr);
    let b = (op / 8) % 8;
    let r = op % 8;
    let x = op / 64;
    if x == 1 {
        (tick(Z80 { f: alu_bit(c2.f, b, v), ..c2 }, 20), s3)
    } else {
        let (res, c3) = if x == 0 {
            let (res, f) = alu_shift(b, c2.f, v);
            (res, Z80 { f, ..c2 })
        } else if x == 2 {
            (v & !(1u8 << b), c2)
        } else {
            (v | (1u8 << b), c2)
        };
        let c4 = if r != 6 { with_reg(c3, r, res) } else { c3 };
        (tick(c4, 23), s_write::<B>(s3, addr, res))
    }
}

// ── ED prefix ──────────────────────────────────────────────────────────────

/// Flags after LDI / LDD, from the byte moved and the new BC.
pub open spec fn ld_block_flags(f: u8, a: u8, v: u8, bc: u16) -> u8 {
    let n = w8(v + a);
    flags(flag_set(f, FLAG_S), flag_set(f, FLAG_Z), bit5(n), false, n & 2 != 0, bc != 0, false, flag_set(f, FLAG_C))
}

/// Flags after CPI / CPD, from A, the byte compared and the new BC.
pub open spec fn cp_block_flags(f: u8, a: u8, v: u8, bc: u16) -> u8 {
    let r = w8(a - v);
    let h = a % 16 < v % 16;
    let n = w8(r - bool_int(h));
    flags(sign8(r), r == 0, bit5(n), h, n & 2 != 0, bc != 0, true, flag_set(f, FLAG_C))
}

/// Flags after INI / IND / OUTI / OUTD, from the new B.
pub open spec fn io_block_flags(b: u8) -> u8 {
    flags(sign8(b), b == 0, false, false, false, false, true, false)
}

/// LDI, LDD, LDIR, LDDR (`dec` selects the decrementing forms, `rep` the repeating ones).
pub open spec fn s_ld_block<B: BusAccess>(c: Z80, s: B::BusState, dec: bool, rep: bool) -> (Z80, B::BusState) {
    let step: int = if dec { -1 } else { 1 };
    let (s1, v) = s_read::<B>(s, hl(c));
    let s2 = s_write::<B>(s1, de(c), v);
    let c1 = with_de(with_hl(c, w16(hl(c) + step)), w16(de(c) + step));
    let nbc = w16(bc(c) - 1);
    let c2 = with_bc(c1, nbc);
    if !rep {
        (tick(Z80 { f: ld_block_flags(c.f, c.a, v, nbc), ..c2 }, 16), s2)
    } else if nbc != 0 {
        (tick(Z80 { pc: w16(c2.pc - 2), ..c2 }, 21), s2)
    } else {
        let f = c.f;
        (tick(Z80 { f: flags(flag_set(f, FLAG_S), flag_set(f, FLAG_Z), flag_set(f, FLAG_Y), false, flag_set(f, FLAG_X), false, false, flag_set(f, FLAG_C)), ..c2 }, 16), s2)
    }
}

/// CPI, CPD, CPIR, CPDR.
pub open spec fn s_cp_block<B: BusAccess>(c: Z80, s: B::BusState, dec: bool, rep: bool) -> (Z80, B::BusState) {
    let step: int = if dec { -1 } else { 1 };
    let (s1, v) = s_read::<B>(s, hl(c));
    let nbc = w16(bc(c) - 1);
    let c2 = with_bc(with_hl(c, w16(hl(c) + step)), nbc);
    let c3 = Z80 { f: cp_block_flags(c.f, c.a, v, nbc), ..c2 };
    if rep && nbc != 0 && w8(c.a - v) != 0 {
        (tick(Z80 { pc: w16(c3.pc - 2), ..c3 }, 21), s1)
    } else {
        (tick(c3, 16), s1)
    }
}

/// INI, IND, INIR, INDR.
pub open spec fn s_in_block<B: BusAccess>(c: Z80, s: B::BusState, dec: bool, rep: bool) -> (Z80, B::BusState) {
    let step: int = if dec { -1 } else { 1 };
    let (s1, v) = B::spec_io_read(s, bc(c));
    let s2 = s_write::<B>(s1, hl(c), v);
    let b = w8(c.b - 1);
    let c1 = Z80 { b, ..with_hl(c, w16(hl(c) + step)) };
    if !rep {
        (tick(Z80 { f: io_block_flags(b), ..c1 }, 16), s2)
    } else if b != 0 {
        (tick(Z80 { pc: w16(c1.pc - 2), ..c1 }, 21), s2)
    } else {
        (tick(Z80 { f: FLAG_Z | FLAG_N, ..c1 }, 16), s2)
    }
}

/// OUTI, OUTD, OTIR, OTDR.
pub open spec fn s_out_block<B: BusAccess>(c: Z80, s: B::BusState, dec: bool, rep: bool) -> (Z80, B::BusState) {
    let step: int = if dec { -1 } else { 1 };
    let (s1, v) = s_read::<B>(s, hl(c));
    let b = w8(c.b - 1);
    let c1 = Z80 { b, ..with_hl(c, w16(hl(c) + step)) };
    let s2 = B::spec_io_write(s1, bc(c1), v);
    if !rep {
        (tick(Z80 { f: io_block_flags(b), ..c1 }, 16), s2)
    } else if b != 0 {
        (tick(Z80 { pc: w16(c1.pc - 2), ..c1 }, 21), s2)
    } else {
        (tick(Z80 { f: FLAG_Z | FLAG_N, ..c1 }, 16), s2)
    }
}

/// The ED table rows 0x40..0x7F.
pub open spec fn s_ed_x1<B: BusAccess>(c: Z80, s: B::BusState, op: u8) -> (Z80, B::BusState) {
    let y = (op / 8) % 8;
    let z = op % 8;
    let p = y / 2;
    if z == 0 {
        let (s1, v) = B::spec_io_read(s, bc(c));
        let c1 = if y == 6 { c } else { with_reg(c, y, v) };
        (tick(Z80 { f: szyxp(v, false, flag_set(c.f, FLAG_C)), ..c1 }, 12), s1)
    } else if z == 1 {
        let v = if y == 6 { 0u8 } else { reg(c, y) };
        (tick(c, 12), B::spec_io_write(s, bc(c), v))
    } else if z == 2 {
        let (r, f) = if y % 2 == 0 { alu_sbc16(c.f, hl(c), rp(c, p)) } else { alu_adc16(c.f, hl(c), rp(c, p)) };
        (tick(with_hl(Z80 { f, ..c }, r), 15), s)
    } else if z == 3 {
        let (c1, s1, addr) = s_fetch16::<B>(c, s);
        if y % 2 == 0 {
            (tick(c1, 20), s_write16::<B>(s1, addr, rp(c1, p)))
        } else {
            let (s2, v) = s_read16::<B>(s1, addr);
            (tick(with_rp(c1, p, v), 20), s2)
        }
    } else if z == 4 {
        let (a, f) = alu_sub(0, c.a, false);
        (tick(Z80 { a, f, ..c }, 8), s)
    } else if z == 5 {
        if y == 3 || y == 5 || y == 7 {
            (tick(c, 8), s)
        } else {
            let (c1, s1, v) = s_pop16::<B>(Z80 { iff1: c.iff2, ..c }, s);
            (tick(Z80 { pc: v, ..c1 }, 14), s1)
        }
    } else if z == 6 {
        if y == 0 || y == 4 { (tick(Z80 { im: 0, ..c }, 8), s) }
        else if y == 2 || y == 6 { (tick(Z80 { im: 1, ..c }, 8), s) }
        else if y == 3 || y == 7 { (tick(Z80 { im: 2, ..c }, 8), s) }
        else { (tick(c, 8), s) }
    } else {
        if y == 0 {
            (tick(Z80 { i: c.a, ..c }, 9), s)
        } else if y == 1 {
            (tick(Z80 { r: c.a, ..c }, 9), s)
        } else if y == 2 || y == 3 {
            let a = if y == 2 { c.i } else { c.r };
            (tick(Z80 { a, f: flags(sign8(a), a == 0, bit5(a), false, bit3(a), c.iff2, false, flag_set(c.f, FLAG_C)), ..c }, 9), s)
        } else if y == 4 || y == 5 {
            let addr = hl(c);
            let (s1, m) = s_read::<B>(s, addr);
            let (nm, a) = if y == 5 {
                ((m << 4u8) | (c.a & 0x0F), (c.a & 0xF0) | (m >> 4u8))
            } else {
                ((m >> 4u8) | (c.a << 4u8), (c.a & 0xF0) | (m & 0x0F))
            };
            (tick(Z80 { a, f: szyxp(a, false, flag_set(c.f, FLAG_C)), ..c }, 18), s_write::<B>(s1, addr, nm))
        } else {
            (tick(c, 8), s)
        }
    }
}

/// The ED table, for an opcode already fetched.
pub open spec fn s_ed_op<B: BusAccess>(c: Z80, s: B::BusState, op: u8) -> (Z80, B::BusState) {
    if 0x40 <= op < 0x80 {
        s_ed_x1::<B>(c, s, op)
    } else if 0xA0 <= op < 0xC0 && op % 8 < 4 && (op / 8) % 8 >= 4 {
        let dec = (op / 8) % 2 == 1;
        let rep = op >= 0xB0;
        let z = op % 8;
        if z == 0 { s_ld_block::<B>(c, s, dec, rep) }
        else if z == 1 { s_cp_block::<B>(c, s, dec, rep) }
        else if z == 2 { s_in_block::<B>(c, s, dec, rep) }
        else { s_out_block::<B>(c, s, dec, rep) }
    } else {
        (tick(c, 8), s)
    }
}

// ── one instruction ────────────────────────────────────────────────────────

pub open spec fn s_x3<B: BusAccess>(c: Z80, s: B::BusState, op: u8) -> (Z80, B::BusState) {
    let y = (op / 8) % 8;
    let z = op % 8;
    let p = y / 2;
    if z == 0 { s_ret_cc::<B>(c, s, y) }
    else if z == 1 { s_x3_z1::<B>(c, s, y) }
    else if z == 2 { s_jp_cc::<B>(c, s, y) }
    else if z == 3 {
        if y == 1 { s_cb::<B>(c, s) } else { s_x3_z3::<B>(c, s, y) }
    }
    else if z == 4 { s_call_cc::<B>(c, s, y) }
    else if z == 5 {
        if y % 2 == 0 {
            s_push_rr::<B>(c, s, p)
        } else if p == 0 {
            let (c1, s1, addr) = s_fetch16::<B>(c, s);
            let (c2, s2) = s_call::<B>(c1, s1, addr);
            (tick(c2, 17), s2)
        } else {
            let (c1, s1, op2) = s_fetch::<B>(c, s);
            if p == 2 { s_ed_op::<B>(c1, s1, op2) } else { s_xy::<B>(c1, s1, op2, p == 3) }
        }
    }
    else if z == 6 { s_alu_n::<B>(c, s, y) }
    else { s_rst::<B>(c, s, y) }
}

/// Execute one instruction (or idle one cycle group while halted).
pub open spec fn s_step<B: BusAccess>(c: Z80, s: B::BusState) -> (Z80, B::BusState) {
    if c.halted {
        (tick(c, 4), s)
    } else {
        let (c1, s1, op) = s_fetch::<B>(c, s);
        let x = op / 64;
        if x == 0 { s_x0::<B>(c1, s1, op) }
        else if x == 1 { s_x1::<B>(c1, s1, op) }
        else if x == 2 { s_x2::<B>(c1, s1, op) }
        else { s_x3::<B>(c1, s1, op) }
    }
}

/// The bus behaves as RAM: reading changes nothing and gives the last
/// byte written at that address.
pub open spec fn ram_like<B: BusAccess>() -> bool {
    &&& forall|s: B::BusState, a: u16| #[trigger] B::spec_mem_read(s, a).0 == s
    &&& forall|s: B::BusState, a: u16, v: u8| #[trigger] B::spec_mem_read(B::spec_mem_write(s, a, v), a).1 == v
    &&& forall|s: B::BusState, a: u16, b: u16, v: u8|
        a != b ==> #[trigger] B::spec_mem_read(B::spec_mem_write(s, a, v), b).1 == B::spec_mem_read(s, b).1
}

proof fn lemma_w16_steps(x: int, k: int)
    requires
        0 <= k <= 3,
    ensures
        w16(w16(x) + k) == w16(x + k),
        pair(hi_byte(w16(x)), lo_byte(w16(x))) == w16(x),
{
    assert(w16(w16(x) + k) == w16(x + k)) by (nonlinear_arith)
        requires
            0 <= k <= 3,
    {
        assert(((x % 65536) + k) % 65536 == (x + k) % 65536) by (nonlinear_arith);
    }
    let v = w16(x) as int;
    assert((v / 256) * 256 + v % 256 == v) by (nonlinear_arith)
        requires
            0 <= v < 65536,
    ;
    assert(0 <= v / 256 < 256 && 0 <= v % 256 < 256) by (nonlinear_arith)
        requires
            0 <= v < 65536,
    ;
}

/// A call and its return: on a bus that behaves as RAM, `CALL nn` (0xCD)
/// at PC whose target holds `RET` (0xC9) pushes the address after the
/// call (low byte at SP - 2, high byte at SP - 1), jumps in 17 cycles, and
/// the `RET` comes back to that address with the stack pointer restored,
/// in 10 cycles more. The target must not lie where the return address is
/// stored. All address arithmetic wraps at 16 bits.
pub proof fn lemma_call_then_ret<B: BusAccess>(c: Z80, s: B::BusState, lo: u8, hi: u8)
    requires
        ram_like::<B>(),
        !c.halted,
        c.cycles + 27 <= u64::MAX,
        B::spec_mem_read(s, c.pc).1 == 0xCDu8,
        B::spec_mem_read(s, w16(c.pc + 1)).1 == lo,
        B::spec_mem_read(s, w16(c.pc + 2)).1 == hi,
        B::spec_mem_read(s, pair(hi, lo)).1 == 0xC9u8,
        pair(hi, lo) != w16(c.sp - 2),
        pair(hi, lo) != w16(c.sp - 1),
    ensures
        ({
            let (c1, s1) = s_step::<B>(c, s);
            let ret = w16(c.pc + 3);
            let (c2, s2) = s_step::<B>(c1, s1);
            &&& c1.pc == pair(hi, lo)
            &&& c1.sp == w16(c.sp - 2)
            &&& c1.cycles == c.cycles + 17
            &&& s1 == B::spec_mem_write(B::spec_mem_write(s, w16(c.sp - 2), lo_byte(ret)), w16(c.sp - 1), hi_byte(ret))
            &&& c2.pc == ret
            &&& c2.sp == c.sp
            &&& c2.cycles == c.cycles + 27
            &&& s2 == s1
        }),
{
    lemma_w16_steps(c.pc as int, 1);
    lemma_w16_steps(c.pc as int, 2);
    lemma_w16_steps(c.pc as int, 3);
    lemma_w16_steps(c.pc as int + 1, 1);
    lemma_w16_steps(c.pc as int + 2, 1);
    lemma_w16_steps(c.sp - 2, 1);
    lemma_w16_steps(c.sp - 2, 2);
    lemma_w16_steps(c.pc as int + 3, 0);
    assert(w16(c.sp as int) == c.sp);
    let (f1, t1, op) = s_fetch::<B>(c, s);
    assert(t1 == s && op == 0xCDu8);
    assert(f1.pc == w16(c.pc + 1));
    let (f2, t2, addr) = s_fetch16::<B>(f1, t1);
    assert(t2 == s);
    assert(addr == pair(hi, lo));
    assert(f2.pc == w16(c.pc + 3));
    let ret = w16(c.pc + 3);
    let a = w16(c.sp - 2);
    let b = w16(a + 1);
    assert(b == w16(c.sp - 1));
    assert(a != b);
    let (c1, s1) = s_step::<B>(c, s);
    assert(s1 == B::spec_mem_write(B::spec_mem_write(s, a, lo_byte(ret)), b, hi_byte(ret)));
    assert(c1.pc == pair(hi, lo) && c1.sp == a);
    let w1 = B::spec_mem_write(s, a, lo_byte(ret));
    assert(B::spec_mem_read(s1, pair(hi, lo)).1 == B::spec_mem_read(w1, pair(hi, lo)).1);
    assert(B::spec_mem_read(w1, pair(hi, lo)).1 == B::spec_mem_read(s, pair(hi, lo)).1);
    assert(B::spec_mem_read(s1, a).1 == B::spec_mem_read(w1, a).1);
    assert(B::spec_mem_read(s1, a).1 == lo_byte(ret));
    assert(B::spec_mem_read(s1, b).1 == hi_byte(ret));
    assert(B::spec_mem_read(s1, pair(hi, lo)).0 == s1);
    assert(B::spec_mem_read(s1, a).0 == s1);
    assert(B::spec_mem_read(s1, b).0 == s1);
}

/// Z, N and C of a flag word built by `flags` are the ones it was given.
proof fn lemma_flag_bits(s: bool, z: bool, y: bool, h: bool, x: bool, pv: bool, n: bool, c: bool)
    ensures
        flag_set(flags(s, z, y, h, x, pv, n, c), FLAG_Z) == z,
        flag_set(flags(s, z, y, h, x, pv, n, c), FLAG_N) == n,
        flag_set(flags(s, z, y, h, x, pv, n, c), FLAG_C) == c,
{
    let f = flags(s, z, y, h, x, pv, n, c);
    assert(f == (if s { 0x80u8 } else { 0u8 }) | (if z { 0x40u8 } else { 0u8 }) | (if y { 0x20u8 } else { 0u8 })
        | (if h { 0x10u8 } else { 0u8 }) | (if x { 0x08u8 } else { 0u8 }) | (if pv { 0x04u8 } else { 0u8 })
        | (if n { 0x02u8 } else { 0u8 }) | (if c { 0x01u8 } else { 0u8 }));
    assert(f & 0x40u8 != 0 <==> z) by (bit_vector)
        requires
            f == (if s { 0x80u8 } else { 0u8 }) | (if z { 0x40u8 } else { 0u8 }) | (if y { 0x20u8 } else { 0u8 })
                | (if h { 0x10u8 } else { 0u8 }) | (if x { 0x08u8 } else { 0u8 }) | (if pv { 0x04u8 } else { 0u8 })
                | (if n { 0x02u8 } else { 0u8 }) | (if c { 0x01u8 } else { 0u8 }),
    ;
    assert(f & 0x02u8 != 0 <==> n) by (bit_vector)
        requires
            f == (if s { 0x80u8 } else { 0u8 }) | (if z { 0x40u8 } else { 0u8 }) | (if y { 0x20u8 } else { 0u8 })
                | (if h { 0x10u8 } else { 0u8 }) | (if x { 0x08u8 } else { 0u8 }) | (if pv { 0x04u8 } else { 0u8 })
                | (if n { 0x02u8 } else { 0u8 }) | (if c { 0x01u8 } else { 0u8 }),
    ;
    assert(f & 0x01u8 != 0 <==> c) by (bit_vector)
        requires
            f == (if s { 0x80u8 } else { 0u8 }) | (if z { 0x40u8 } else { 0u8 }) | (if y { 0x20u8 } else { 0u8 })
                | (if h { 0x10u8 } else { 0u8 }) | (if x { 0x08u8 } else { 0u8 }) | (if pv { 0x04u8 } else { 0u8 })
                | (if n { 0x02u8 } else { 0u8 }) | (if c { 0x01u8 } else { 0u8 }),
    ;
}

/// The logic group on a register or on (HL), opcodes 0xA0..0xB7, on a bus
/// that behaves as RAM: with `v` the register named by the low three bits
/// (the byte at HL for code 6), one step leaves `A & v` (AND), `A ^ v`
/// (XOR) or `A | v` (OR) in A; Z is set exactly when that result is 0, N
/// and C are clear, PC moves past the opcode and the bus is as it was.
/// So `XOR A` (0xAF) clears A and sets Z.
#[verifier::spinoff_prover]
#[verifier::rlimit(50)]
pub proof fn lemma_logic_op_step<B: BusAccess>(c: Z80, s: B::BusState, op: u8)
    requires
        ram_like::<B>(),
        !c.halted,
        0xA0 <= op < 0xB8,
        B::spec_mem_read(s, c.pc).1 == op,
    ensures
        ({
            let (c1, s1) = s_step::<B>(c, s);
            let v = if op % 8 == 6 { B::spec_mem_read(s, hl(c)).1 } else { reg(c, op % 8) };
            &&& op < 0xA8 ==> c1.a == c.a & v
            &&& 0xA8 <= op < 0xB0 ==> c1.a == c.a ^ v
            &&& 0xB0 <= op ==> c1.a == c.a | v
            &&& flag_set(c1.f, FLAG_Z) == (c1.a == 0)
            &&& !flag_set(c1.f, FLAG_N)
            &&& !flag_set(c1.f, FLAG_C)
            &&& op == 0xAF ==> c1.a == 0 && flag_set(c1.f, FLAG_Z)
            &&& c1.pc == w16(c.pc + 1)
            &&& s1 == s
        }),
{
    let (f1, t1, o) = s_fetch::<B>(c, s);
    assert(t1 == s && o == op);
    assert(op / 64 == 2);
    assert(s_step::<B>(c, s) == s_x2::<B>(f1, t1, op));
    let k = (op / 8) % 8;
    let v = if op % 8 == 6 { B::spec_mem_read(s, hl(c)).1 } else { reg(c, op % 8) };
    assert(hl(f1) == hl(c));
    assert(reg(f1, op % 8) == reg(c, op % 8));
    let v1 = if op % 8 == 6 { s_read::<B>(t1, hl(f1)).1 } else { reg(f1, op % 8) };
    assert(v1 == v);
    assert(s_x2::<B>(f1, t1, op).0 == tick(alu_op(f1, k, v), if op % 8 == 6 { 7int } else { 4int }));
    let r = if k == 4 { c.a & v } else if k == 5 { c.a ^ v } else { c.a | v };
    lemma_flag_bits(sign8(r), r == 0, bit5(r), k == 4, bit3(r), even_parity(r), false, false);
    let a = c.a;
    assert(a ^ a == 0) by (bit_vector);
}

/// AND n, XOR n and OR n (0xE6, 0xEE, 0xF6) on a bus that behaves as RAM:
/// with `n` the byte after the opcode, one step leaves `A & n`, `A ^ n` or
/// `A | n` in A; Z is set exactly when that result is 0, N and C are clear,
/// PC moves past both bytes and the bus is as it was.
pub proof fn lemma_logic_imm_step<B: BusAccess>(c: Z80, s: B::BusState, op: u8)
    requires
        ram_like::<B>(),
        !c.halted,
        op == 0xE6 || op == 0xEE || op == 0xF6,
        B::spec_mem_read(s, c.pc).1 == op,
    ensures
        ({
            let (c1, s1) = s_step::<B>(c, s);
            let n = B::spec_mem_read(s, w16(c.pc + 1)).1;
            &&& op == 0xE6 ==> c1.a == c.a & n
            &&& op == 0xEE ==> c1.a == c.a ^ n
            &&& op == 0xF6 ==> c1.a == c.a | n
            &&& flag_set(c1.f, FLAG_Z) == (c1.a == 0)
            &&& !flag_set(c1.f, FLAG_N)
            &&& !flag_set(c1.f, FLAG_C)
            &&& c1.pc == w16(c.pc + 2)
            &&& s1 == s
        }),
{
    lemma_w16_steps(c.pc as int + 1, 1);
    let (f1, t1, o) = s_fetch::<B>(c, s);
    assert(t1 == s && o == op);
    let (f2, t2, n) = s_fetch::<B>(f1, t1);
    assert(t2 == s && n == B::spec_mem_read(s, w16(c.pc + 1)).1);
    let k = (op / 8) % 8;
    let r = if k == 4 { c.a & n } else if k == 5 { c.a ^ n } else { c.a | n };
    lemma_flag_bits(sign8(r), r == 0, bit5(r), k == 4, bit3(r), even_parity(r), false, false);
}

/// One step of an opcode in 0x80..0xBF (ALU on a register or on (HL)) on a
/// bus that behaves as RAM: the ALU operation `(op / 8) % 8` applied to A
/// and the operand, after the fetch.
proof fn lemma_x2_step<B: BusAccess>(c: Z80, s: B::BusState, op: u8)
    requires
        ram_like::<B>(),
        !c.halted,
        0x80 <= op < 0xC0,
        B::spec_mem_read(s, c.pc).1 == op,
    ensures
        ({
            let f1 = Z80 { pc: w16(c.pc + 1), r: next_r(c.r), ..c };
            let v = if op % 8 == 6 { B::spec_mem_read(s, hl(c)).1 } else { reg(c, op % 8) };
            s_step::<B>(c, s) == (tick(alu_op(f1, (op / 8) % 8, v), if op % 8 == 6 { 7int } else { 4int }), s)
        }),
{
    let (f1, t1, o) = s_fetch::<B>(c, s);
    assert(t1 == s && o == op);
    assert(op / 64 == 2);
    assert(s_step::<B>(c, s) == s_x2::<B>(f1, t1, op));
    assert(hl(f1) == hl(c));
    assert(reg(f1, op % 8) == reg(c, op % 8));
}

/// What the arithmetic ALU operations (0 to 3, and CP) leave in A, Z and C.
proof fn lemma_alu_arith(c: Z80, k: u8, v: u8)
    requires
        k < 4 || k == 7,
    ensures
        ({
            let c1 = alu_op(c, k, v);
            let cy: int = if flag_set(c.f, FLAG_C) { 1 } else { 0 };
            &&& k == 0 ==> c1.a == (c.a + v) % 256 && flag_set(c1.f, FLAG_C) == (c.a + v > 255)
            &&& k == 1 ==> c1.a == (c.a + v + cy) % 256 && flag_set(c1.f, FLAG_C) == (c.a + v + cy > 255)
            &&& k == 2 ==> c1.a == (c.a - v) % 256 && flag_set(c1.f, FLAG_C) == (c.a < v)
            &&& k == 3 ==> c1.a == (c.a - v - cy) % 256 && flag_set(c1.f, FLAG_C) == (c.a < v + cy)
            &&& k < 4 ==> flag_set(c1.f, FLAG_Z) == (c1.a == 0)
            &&& k == 7 ==> c1.a == c.a && flag_set(c1.f, FLAG_Z) == (c.a == v) && flag_set(c1.f, FLAG_C) == (c.a < v)
        }),
{
    let a = c.a;
    let cyb = flag_set(c.f, FLAG_C);
    if k == 0 || k == 1 {
        let i = bool_int(if k == 0 { false } else { cyb });
        let r = w8(a + v + i);
        lemma_flag_bits(sign8(r), r == 0, bit5(r), (a % 16) + (v % 16) + i > 15, bit3(r),
            sign8(a) == sign8(v) && sign8(r) != sign8(a), false, a + v + i > 255);
    } else if k == 2 || k == 3 {
        let i = bool_int(if k == 2 { false } else { cyb });
        let r = w8(a - v - i);
        lemma_flag_bits(sign8(r), r == 0, bit5(r), (a % 16) < (v % 16) + i, bit3(r),
            sign8(a) != sign8(v) && sign8(r) != sign8(a), true, (a as int) < v + i);
    } else {
        let r = w8(a - v);
        assert((r == 0) == (a == v));
        lemma_flag_bits(sign8(r), r == 0, bit5(v), (a % 16) < (v % 16), bit3(v),
            sign8(a) != sign8(v) && sign8(r) != sign8(a), true, (a as int) < (v as int));
    }
}

/// The arithmetic group on a register or on (HL), opcodes 0x80..0x9F and
/// 0xB8..0xBF, on a bus that behaves as RAM: with `v` the register named
/// by the low three bits (the byte at HL for code 6) and `cy` the carry
/// before, one step leaves in A `A + v` (ADD), `A + v + cy` (ADC), `A - v`
/// (SUB) or `A - v - cy` (SBC), each modulo 256, with the carry set exactly
/// when the true sum exceeds 255 or the true difference is negative; CP
/// leaves A as it was, sets Z exactly when `A == v` and the carry exactly
/// when `A < v`. ADD, ADC, SUB and SBC set Z exactly when the new A is 0.
#[verifier::spinoff_prover]
#[verifier::rlimit(50)]
pub proof fn lemma_arith_op_step<B: BusAccess>(c: Z80, s: B::BusState, op: u8)
    requires
        ram_like::<B>(),
        !c.halted,
        0x80 <= op < 0xA0 || 0xB8 <= op < 0xC0,
        B::spec_mem_read(s, c.pc).1 == op,
    ensures
        ({
            let (c1, s1) = s_step::<B>(c, s);
            let v = if op % 8 == 6 { B::spec_mem_read(s, hl(c)).1 } else { reg(c, op % 8) };
            let cy: int = if flag_set(c.f, FLAG_C) { 1 } else { 0 };
            &&& op < 0x88 ==> c1.a == (c.a + v) % 256 && flag_set(c1.f, FLAG_C) == (c.a + v > 255)
            &&& 0x88 <= op < 0x90 ==> c1.a == (c.a + v + cy) % 256 && flag_set(c1.f, FLAG_C) == (c.a + v + cy > 255)
            &&& 0x90 <= op < 0x98 ==> c1.a == (c.a - v) % 256 && flag_set(c1.f, FLAG_C) == (c.a < v)
            &&& 0x98 <= op < 0xA0 ==> c1.a == (c.a - v - cy) % 256 && flag_set(c1.f, FLAG_C) == (c.a < v + cy)
            &&& op < 0xA0 ==> flag_set(c1.f, FLAG_Z) == (c1.a == 0)
            &&& 0xB8 <= op ==> c1.a == c.a && flag_set(c1.f, FLAG_Z) == (c.a == v) && flag_set(c1.f, FLAG_C) == (c.a < v)
            &&& c1.pc == w16(c.pc + 1)
            &&& s1 == s
        }),
{
    lemma_x2_step::<B>(c, s, op);
    let f1 = Z80 { pc: w16(c.pc + 1), r: next_r(c.r), ..c };
    let v = if op % 8 == 6 { B::spec_mem_read(s, hl(c)).1 } else { reg(c, op % 8) };
    lemma_alu_arith(f1, (op / 8) % 8, v);
    let c1 = tick(alu_op(f1, (op / 8) % 8, v), if op % 8 == 6 { 7int } else { 4int });
    assert(s_step::<B>(c, s).0 == c1);
    assert(c1.a == alu_op(f1, (op / 8) % 8, v).a && c1.f == alu_op(f1, (op / 8) % 8, v).f);
}

} // verus!
