//! AY-3-8910 sound generator: sixteen registers, three square-wave tones,
//! a noise source and a volume envelope, stepped once per CPU cycle.
//!
//! A sample is kept as the level (0 to 15) each channel sounds at, or 0
//! where the channel is silent; turning levels into an amplitude is left
//! to the audio output.
use vstd::prelude::*;

verus! {

/// CPU cycles per audio sample: 3 579 545 Hz over 44 100 Hz.
pub const CYCLES_PER_SAMPLE: u32 = 81;

pub struct Psg {
    pub regs: [u8; 16],
    pub addr: u8,
    pub tone_counter: [u32; 3],
    pub tone_out: [bool; 3],
    pub noise_counter: u32,
    pub noise_lfsr: u32,
    pub noise_out: bool,
    pub env_counter: u32,
    pub env_hold: bool,
    pub env_dir: i8,
    pub env_volume: u8,
    pub sample_counter: u32,
    pub samples: Vec<[u8; 3]>,
}

/// The state of the tone, noise and envelope generators.
pub struct GenState {
    pub tone_counter: Seq<u32>,
    pub tone_out: Seq<bool>,
    pub noise_counter: u32,
    pub noise_lfsr: u32,
    pub noise_out: bool,
    pub env_counter: u32,
    pub env_hold: bool,
    pub env_dir: i8,
    pub env_volume: u8,
}

/// Tone period of channel `ch` in PSG units (12 bits, 0 read as 1).
pub open spec fn tone_period(regs: Seq<u8>, ch: int) -> u32 {
    let p = (regs[2 * ch + 1] % 16) as int * 256 + regs[2 * ch] as int;
    if p == 0 {
        1
    } else {
        p as u32
    }
}

pub open spec fn noise_period(regs: Seq<u8>) -> u32 {
    let p = regs[6] % 32;
    if p == 0 {
        1
    } else {
        p as u32
    }
}

pub open spec fn env_period(regs: Seq<u8>) -> u32 {
    let p = regs[12] as int * 256 + regs[11] as int;
    if p == 0 {
        1
    } else {
        p as u32
    }
}

/// One tone counter step: count up, flip the output once the period (in
/// CPU cycles, 16 per PSG unit) is reached.
pub open spec fn tone_step(counter: u32, out: bool, period: u32) -> (u32, bool) {
    let c = counter + 1;
    if c >= period * 16 {
        ((c - period * 16) as u32, !out)
    } else {
        (c as u32, out)
    }
}

/// The 17-bit noise shift register after one shift (feedback bit 0 xor bit 3).
pub open spec fn lfsr_next(l: u32) -> u32 {
    (l >> 1u32) | (((l ^ (l >> 3u32)) & 1u32) << 16u32)
}

/// The envelope after one envelope period, for envelope shape `shape`.
pub open spec fn env_next(hold: bool, dir: i8, vol: u8, shape: u8) -> (bool, i8, u8) {
    let h = shape & 1 != 0;
    let alt = shape & 2 != 0;
    let cont = shape & 8 != 0;
    if dir > 0 {
        if vol < 15 {
            (hold, dir, (vol + 1) as u8)
        } else if !cont {
            (true, dir, 0)
        } else if h {
            (true, dir, vol)
        } else if alt {
            (hold, -1i8, vol)
        } else {
            (hold, dir, 0)
        }
    } else {
        if vol > 0 {
            (hold, dir, (vol - 1) as u8)
        } else if !cont {
            (true, dir, 0)
        } else if h {
            (true, dir, vol)
        } else if alt {
            (hold, 1i8, vol)
        } else {
            (hold, dir, 15)
        }
    }
}

/// The generators one CPU cycle later.
pub open spec fn gen_step(g: GenState, regs: Seq<u8>) -> GenState {
    let t0 = tone_step(g.tone_counter[0], g.tone_out[0], tone_period(regs, 0));
    let t1 = tone_step(g.tone_counter[1], g.tone_out[1], tone_period(regs, 1));
    let t2 = tone_step(g.tone_counter[2], g.tone_out[2], tone_period(regs, 2));
    let nc = g.noise_counter + 1;
    let noise_fires = nc >= noise_period(regs) * 16;
    let lfsr = if noise_fires { lfsr_next(g.noise_lfsr) } else { g.noise_lfsr };
    let ec = g.env_counter.wrapping_add(1);
    let env_fires = ec >= env_period(regs) * 256 && !g.env_hold;
    let e = env_next(g.env_hold, g.env_dir, g.env_volume, regs[13]);
    GenState {
        tone_counter: seq![t0.0, t1.0, t2.0],
        tone_out: seq![t0.1, t1.1, t2.1],
        noise_counter: if noise_fires {
            (nc - noise_period(regs) * 16) as u32
        } else {
            nc as u32
        },
        noise_lfsr: lfsr,
        noise_out: if noise_fires {
            lfsr & 1 != 0
        } else {
            g.noise_out
        },
        env_counter: if env_fires {
            (ec - env_period(regs) * 256) as u32
        } else {
            ec
        },
        env_hold: if env_fires { e.0 } else { g.env_hold },
        env_dir: if env_fires { e.1 } else { g.env_dir },
        env_volume: if env_fires { e.2 } else { g.env_volume },
    }
}

/// The generators `n` CPU cycles later.
pub open spec fn gen_steps(g: GenState, regs: Seq<u8>, n: nat) -> GenState
    decreases n,
{
    if n == 0 {
        g
    } else {
        gen_step(gen_steps(g, regs, (n - 1) as nat), regs)
    }
}

/// The level channel `ch` sounds at: its volume register, or the envelope
/// where the register's bit 4 asks for it; 0 where tone and noise are both
/// off for it or the enabled ones are low.
pub open spec fn channel_out(g: GenState, regs: Seq<u8>, ch: int) -> u8 {
    let enable = regs[7];
    let tone_en = enable & (1u8 << (ch as u8)) == 0;
    let noise_en = enable & (1u8 << ((ch + 3) as u8)) == 0;
    let active = if !tone_en && !noise_en {
        false
    } else if tone_en && !noise_en {
        g.tone_out[ch]
    } else if !tone_en && noise_en {
        g.noise_out
    } else {
        g.tone_out[ch] && g.noise_out
    };
    let vol = regs[8 + ch];
    let level = if vol & 0x10 != 0 {
        g.env_volume
    } else {
        vol & 0x0F
    };
    if active {
        level
    } else {
        0
    }
}

pub open spec fn mix(g: GenState, regs: Seq<u8>) -> [u8; 3] {
    [channel_out(g, regs, 0), channel_out(g, regs, 1), channel_out(g, regs, 2)]
}

/// The value register `reg` keeps of a write of `val`.
pub open spec fn reg_value(reg: int, val: u8) -> u8 {
    if reg == 1 || reg == 3 || reg == 5 || reg == 13 {
        val & 0x0F
    } else if reg == 6 || reg == 8 || reg == 9 || reg == 10 {
        val & 0x1F
    } else {
        val
    }
}

/// The registers after a write of `val` to the register `addr` selects.
pub open spec fn written_regs(regs: Seq<u8>, addr: u8, val: u8) -> Seq<u8> {
    regs.update(addr as int % 16, reg_value(addr as int % 16, val))
}

/// The generators after a write of `val` to the register `addr` selects:
/// a write to the envelope shape restarts the envelope.
pub open spec fn written_gen(g: GenState, addr: u8, val: u8) -> GenState {
    if addr % 16 == 13 {
        GenState {
            env_hold: false,
            env_dir: if val & 0x04 != 0 { 1i8 } else { -1i8 },
            env_volume: if val & 0x04 != 0 { 0u8 } else { 15u8 },
            ..g
        }
    } else {
        g
    }
}

impl Psg {
    pub open spec fn gen(&self) -> GenState {
        GenState {
            tone_counter: self.tone_counter@,
            tone_out: self.tone_out@,
            noise_counter: self.noise_counter,
            noise_lfsr: self.noise_lfsr,
            noise_out: self.noise_out,
            env_counter: self.env_counter,
            env_hold: self.env_hold,
            env_dir: self.env_dir,
            env_volume: self.env_volume,
        }
    }

    /// The counters stay small.
    pub open spec fn wf(&self) -> bool {
        &&& forall|ch: int| 0 <= ch < 3 ==> #[trigger] self.tone_counter@[ch] <= 65536
        &&& self.noise_counter <= 65536
        &&& self.sample_counter < CYCLES_PER_SAMPLE
    }

    pub open spec fn sample_counter_spec(&self) -> u32 {
        self.sample_counter
    }

    pub fn new() -> (p: Self)
        ensures
            p.wf(),
            p.regs@ == Seq::new(16, |i: int| 0u8),
            p.addr == 0,
            p.samples@.len() == 0,
            p.sample_counter_spec() == 0,
            p.gen() == (GenState {
                tone_counter: seq![0u32, 0u32, 0u32],
                tone_out: seq![false, false, false],
                noise_counter: 0,
                noise_lfsr: 1,
                noise_out: false,
                env_counter: 0,
                env_hold: false,
                env_dir: 1,
                env_volume: 15,
            }),
    {
        let p = Psg {
            regs: [0; 16],
            addr: 0,
            tone_counter: [0; 3],
            tone_out: [false; 3],
            noise_counter: 0,
            noise_lfsr: 1,
            noise_out: false,
            env_counter: 0,
            env_hold: false,
            env_dir: 1,
            env_volume: 15,
            sample_counter: 0,
            samples: Vec::new(),
        };
        assert(p.regs@ =~= Seq::new(16, |i: int| 0u8));
        assert(p.tone_counter@ =~= seq![0u32, 0u32, 0u32]);
        assert(p.tone_out@ =~= seq![false, false, false]);
        p
    }

    /// Selects the register the data port reads and writes (low four bits).
    pub fn write_addr(&mut self, addr: u8)
        ensures
            final(self).addr == addr & 0x0F,
            final(self).tone_counter == old(self).tone_counter,
            final(self).noise_counter == old(self).noise_counter,
            final(self).regs@ == old(self).regs@,
            final(self).gen() == old(self).gen(),
            final(self).samples@ == old(self).samples@,
            final(self).sample_counter == old(self).sample_counter,
    {
        self.addr = addr & 0x0F;
    }

    /// Writes the selected register (the low four bits of the address),
    /// keeping only the register's meaningful bits; a write to the envelope
    /// shape restarts the envelope, rising from 0 if the attack bit (bit 2)
    /// is set, else falling from 15.
    pub fn write_data(&mut self, val: u8)
        ensures
            final(self).regs@ == written_regs(old(self).regs@, old(self).addr, val),
            final(self).gen() == written_gen(old(self).gen(), old(self).addr, val),
            final(self).addr == old(self).addr,
            final(self).samples@ == old(self).samples@,
            final(self).sample_counter == old(self).sample_counter,
    {
        let reg = (self.addr % 16) as usize;
        let v = match reg {
            1 | 3 | 5 => val & 0x0F,
            6 => val & 0x1F,
            8 | 9 | 10 => val & 0x1F,
            13 => {
                self.env_hold = false;
                let attack = val & 0x04 != 0;
                self.env_dir = if attack {
                    1
                } else {
                    -1
                };
                self.env_volume = if attack {
                    0
                } else {
                    15
                };
                val & 0x0F
            },
            _ => val,
        };
        self.regs[reg] = v;
    }

    /// The selected register (the low four bits of the address).
    pub fn read_data(&self) -> (r: u8)
        ensures
            r == self.regs@[self.addr as int % 16],
    {
        self.regs[(self.addr % 16) as usize]
    }

    /// Port A (register 14), which carries the joystick inputs.
    pub fn port_a(&self) -> (r: u8)
        ensures
            r == self.regs@[14],
    {
        self.regs[14]
    }

    fn tone_period_of(&self, ch: usize) -> (r: u32)
        requires
            ch < 3,
        ensures
            r == tone_period(self.regs@, ch as int),
            1 <= r <= 4095,
    {
        let lo = self.regs[ch * 2] as u32;
        let hi = (self.regs[ch * 2 + 1] % 16) as u32;
        let p = hi * 256 + lo;
        if p == 0 {
            1
        } else {
            p
        }
    }

    /// Steps the generators by one CPU cycle.
    fn tick_generators(&mut self)
        requires
            old(self).wf(),
        ensures
            final(self).wf(),
            final(self).gen() == gen_step(old(self).gen(), old(self).regs@),
            final(self).regs@ == old(self).regs@,
            final(self).addr == old(self).addr,
            final(self).samples@ == old(self).samples@,
            final(self).sample_counter_spec() == old(self).sample_counter_spec(),
    {
        let ghost g0 = self.gen();
        let mut ch: usize = 0;
        while ch < 3
            invariant
                ch <= 3,
                self.regs@ == old(self).regs@,
                self.addr == old(self).addr,
                self.samples@ == old(self).samples@,
                self.sample_counter == old(self).sample_counter,
                self.noise_counter == old(self).noise_counter,
                self.noise_lfsr == old(self).noise_lfsr,
                self.noise_out == old(self).noise_out,
                self.env_counter == old(self).env_counter,
                self.env_hold == old(self).env_hold,
                self.env_dir == old(self).env_dir,
                self.env_volume == old(self).env_volume,
                old(self).wf(),
                forall|c: int| ch <= c < 3 ==> #[trigger] self.tone_counter@[c] == old(self).tone_counter@[c],
                forall|c: int| ch <= c < 3 ==> #[trigger] self.tone_out@[c] == old(self).tone_out@[c],
                forall|c: int| 0 <= c < ch ==> (#[trigger] self.tone_counter@[c], self.tone_out@[c]) == tone_step(
                    old(self).tone_counter@[c],
                    old(self).tone_out@[c],
                    tone_period(old(self).regs@, c),
                ),
                forall|c: int| 0 <= c < 3 ==> #[trigger] self.tone_counter@[c] <= 65536,
            decreases 3 - ch,
        {
            let period = self.tone_period_of(ch) * 16;
            let c = self.tone_counter[ch] + 1;
            if c >= period {
                self.tone_counter[ch] = c - period;
                self.tone_out[ch] = !self.tone_out[ch];
            } else {
                self.tone_counter[ch] = c;
            }
            ch = ch + 1;
        }
        let np = ((self.regs[6] % 32) as u32);
        let np = if np == 0 {
            1
        } else {
            np
        };
        let noise_period = np * 16;
        let nc = self.noise_counter + 1;
        if nc >= noise_period {
            self.noise_counter = nc - noise_period;
            let l = self.noise_lfsr;
            let feedback = (l ^ (l >> 3u32)) & 1u32;
            self.noise_lfsr = (l >> 1u32) | (feedback << 16u32);
            self.noise_out = self.noise_lfsr & 1 != 0;
        } else {
            self.noise_counter = nc;
        }
        let ep = (self.regs[12] as u32) * 256 + self.regs[11] as u32;
        let ep = if ep == 0 {
            1
        } else {
            ep
        };
        let env_period = ep * 256;
        let ec = self.env_counter.wrapping_add(1);
        if ec >= env_period && !self.env_hold {
            self.env_counter = ec - env_period;
            let shape = self.regs[13];
            let hold = shape & 0x01 != 0;
            let alt = shape & 0x02 != 0;
            let cont = shape & 0x08 != 0;
            if self.env_dir > 0 {
                if self.env_volume < 15 {
                    self.env_volume = self.env_volume + 1;
                } else {
                    if !cont {
                        self.env_hold = true;
                        self.env_volume = 0;
                    } else if hold {
                        self.env_hold = true;
                    } else if alt {
                        self.env_dir = -1;
                    } else {
                        self.env_volume = 0;
                    }
                }
            } else {
                if self.env_volume > 0 {
                    self.env_volume = self.env_volume - 1;
                } else {
                    if !cont {
                        self.env_hold = true;
                        self.env_volume = 0;
                    } else if hold {
                        self.env_hold = true;
                    } else if alt {
                        self.env_dir = 1;
                    } else {
                        self.env_volume = 15;
                    }
                }
            }
        } else {
            self.env_counter = ec;
        }
        proof {
            assert(self.tone_counter@ =~= gen_step(g0, old(self).regs@).tone_counter);
            assert(self.tone_out@ =~= gen_step(g0, old(self).regs@).tone_out);
        }
    }

    /// The levels the three channels sound at now.
    pub fn mix_sample(&self) -> (r: [u8; 3])
        ensures
            r == mix(self.gen(), self.regs@),
    {
        let enable = self.regs[7];
        let mut out = [0u8; 3];
        let mut ch: usize = 0;
        while ch < 3
            invariant
                ch <= 3,
                enable == self.regs@[7],
                forall|c: int| 0 <= c < ch ==> #[trigger] out@[c] == channel_out(self.gen(), self.regs@, c),
            decreases 3 - ch,
        {
            let tone_en = enable & (1u8 << (ch as u8)) == 0;
            let noise_en = enable & (1u8 << ((ch + 3) as u8)) == 0;
            let active = if !tone_en && !noise_en {
                false
            } else if tone_en && !noise_en {
                self.tone_out[ch]
            } else if !tone_en && noise_en {
                self.noise_out
            } else {
                self.tone_out[ch] && self.noise_out
            };
            let vol = self.regs[8 + ch];
            let level = if vol & 0x10 != 0 {
                self.env_volume
            } else {
                vol & 0x0F
            };
            out[ch] = if active {
                level
            } else {
                0
            };
            ch = ch + 1;
        }
        assert(out@ =~= mix(self.gen(), self.regs@)@);
        out
    }

    /// Advances the generators by `cycles` CPU cycles, then emits one
    /// sample (of the generators as they are now) per 81 cycles accumulated.
    pub fn tick(&mut self, cycles: u32)
        requires
            old(self).wf(),
            cycles <= u32::MAX - CYCLES_PER_SAMPLE,
        ensures
            final(self).wf(),
            final(self).gen() == gen_steps(old(self).gen(), old(self).regs@, cycles as nat),
            final(self).regs@ == old(self).regs@,
            final(self).addr == old(self).addr,
            final(self).sample_counter_spec() == (old(self).sample_counter_spec() + cycles) % (CYCLES_PER_SAMPLE as int),
            final(self).samples@ == old(self).samples@ + Seq::new(
                ((old(self).sample_counter_spec() + cycles) / (CYCLES_PER_SAMPLE as int)) as nat,
                |i: int| mix(final(self).gen(), final(self).regs@),
            ),
    {
        let mut i: u32 = 0;
        while i < cycles
            invariant
                i <= cycles,
                self.wf(),
                self.gen() == gen_steps(old(self).gen(), old(self).regs@, i as nat),
                self.regs@ == old(self).regs@,
                self.addr == old(self).addr,
                self.samples@ == old(self).samples@,
                self.sample_counter == old(self).sample_counter,
            decreases cycles - i,
        {
            self.tick_generators();
            i = i + 1;
        }
        let total = self.sample_counter + cycles;
        self.sample_counter = total;
        let sample = self.mix_sample();
        let ghost s0 = self.samples@;
        let mut k: u32 = 0;
        while self.sample_counter >= CYCLES_PER_SAMPLE
            invariant
                self.sample_counter + k * CYCLES_PER_SAMPLE == total,
                self.samples@ == s0 + Seq::new(k as nat, |j: int| sample),
                sample == mix(self.gen(), self.regs@),
                self.gen() == gen_steps(old(self).gen(), old(self).regs@, cycles as nat),
                self.regs@ == old(self).regs@,
                self.addr == old(self).addr,
                forall|ch: int| 0 <= ch < 3 ==> #[trigger] self.tone_counter@[ch] <= 65536,
                self.noise_counter <= 65536,
            decreases self.sample_counter,
        {
            self.sample_counter = self.sample_counter - CYCLES_PER_SAMPLE;
            self.samples.push(sample);
            k = k + 1;
            assert(self.samples@ =~= s0 + Seq::new(k as nat, |j: int| sample));
        }
        proof {
            assert(k == total / 81 && self.sample_counter == total % 81) by (nonlinear_arith)
                requires
                    self.sample_counter + k * 81 == total,
                    self.sample_counter < 81,
            ;
        }
    }

    /// Hands out the samples produced so far and forgets them.
    pub fn take_samples(&mut self) -> (r: Vec<[u8; 3]>)
        ensures
            r@ == old(self).samples@,
            final(self).samples@.len() == 0,
            final(self).regs@ == old(self).regs@,
            final(self).addr == old(self).addr,
            final(self).gen() == old(self).gen(),
            final(self).sample_counter_spec() == old(self).sample_counter_spec(),
            old(self).wf() ==> final(self).wf(),
    {
        let mut s: Vec<[u8; 3]> = Vec::new();
        std::mem::swap(&mut s, &mut self.samples);
        s
    }
}

/// Channel `ch` (0 to 2) sounds: at least one of its sources is enabled in
/// register 7 (a clear bit `ch` enables its tone, a clear bit `ch + 3` the
/// noise), and every enabled source is high.
pub open spec fn channel_sounds(g: GenState, regs: Seq<u8>, ch: int) -> bool {
    let unit: int = if ch == 0 { 1 } else if ch == 1 { 2 } else { 4 };
    let tone_on = (regs[7] as int / unit) % 2 == 0;
    let noise_on = (regs[7] as int / (8 * unit)) % 2 == 0;
    &&& tone_on || noise_on
    &&& tone_on ==> g.tone_out[ch]
    &&& noise_on ==> g.noise_out
}

/// The level of a channel: a sounding channel whose volume register has
/// bit 4 set sounds at the envelope's current volume; one whose bit 4 is
/// clear sounds at the low four bits of its volume register; a channel
/// that does not sound gives 0.
pub proof fn lemma_channel_level(g: GenState, regs: Seq<u8>, ch: int)
    requires
        0 <= ch < 3,
    ensures
        ({
            let vol = regs[8 + ch];
            let out = mix(g, regs)[ch];
            &&& channel_sounds(g, regs, ch) && (vol / 16) % 2 == 1 ==> out == g.env_volume
            &&& channel_sounds(g, regs, ch) && (vol / 16) % 2 == 0 ==> out == vol % 16
            &&& !channel_sounds(g, regs, ch) ==> out == 0
        }),
{
    let e = regs[7];
    let vol = regs[8 + ch];
    let c = ch as u8;
    let c3 = (ch + 3) as u8;
    assert((vol & 0x10 != 0) == ((vol / 16) % 2 == 1) && vol & 0x0F == vol % 16) by (bit_vector);
    if ch == 0 {
        assert((e & (1u8 << c) == 0) == (e % 2 == 0) && (e & (1u8 << c3) == 0) == ((e / 8) % 2 == 0)) by (bit_vector)
            requires
                c == 0u8,
                c3 == 3u8,
        ;
    } else if ch == 1 {
        assert((e & (1u8 << c) == 0) == ((e / 2) % 2 == 0) && (e & (1u8 << c3) == 0) == ((e / 16) % 2 == 0)) by (bit_vector)
            requires
                c == 1u8,
                c3 == 4u8,
        ;
    } else {
        assert((e & (1u8 << c) == 0) == ((e / 4) % 2 == 0) && (e & (1u8 << c3) == 0) == ((e / 32) % 2 == 0)) by (bit_vector)
            requires
                c == 2u8,
                c3 == 5u8,
        ;
    }
    assert(mix(g, regs)[ch] == channel_out(g, regs, ch));
}

/// The envelope between 0 and 15: each envelope period moves the volume one
/// step, up while rising (direction > 0) and down while falling, and it
/// never leaves 0..15. At the end of a ramp, a shape without the continue
/// bit (bit 3) drops to 0 and holds; with continue and hold (bit 0) it
/// holds where it is; with continue and alternate (bit 1) it turns round;
/// with continue alone it starts the same ramp again from the other end.
/// Writing the shape register restarts the envelope at 0 rising when its
/// attack bit (bit 2) is set, else at 15 falling.
pub proof fn lemma_envelope_ramps(hold: bool, dir: i8, vol: u8, shape: u8, g: GenState, addr: u8)
    requires
        vol <= 15,
    ensures
        ({
            let (h2, d2, v2) = env_next(hold, dir, vol, shape);
            let cont = (shape / 8) % 2 == 1;
            let hld = shape % 2 == 1;
            let alt = (shape / 2) % 2 == 1;
            &&& v2 <= 15
            &&& dir > 0 && vol < 15 ==> v2 == vol + 1 && d2 == dir && h2 == hold
            &&& dir <= 0 && vol > 0 ==> v2 == vol - 1 && d2 == dir && h2 == hold
            &&& (dir > 0 && vol == 15 || dir <= 0 && vol == 0) && !cont ==> v2 == 0 && h2
            &&& (dir > 0 && vol == 15 || dir <= 0 && vol == 0) && cont && hld ==> v2 == vol && h2
            &&& (dir > 0 && vol == 15 || dir <= 0 && vol == 0) && cont && !hld && alt ==> v2 == vol && (d2 > 0) == (dir <= 0)
            &&& (dir > 0 && vol == 15) && cont && !hld && !alt ==> v2 == 0 && d2 == dir
            &&& (dir <= 0 && vol == 0) && cont && !hld && !alt ==> v2 == 15 && d2 == dir
        }),
        addr % 16 == 13 ==> {
            let g2 = written_gen(g, addr, shape);
            &&& (shape / 4) % 2 == 1 ==> g2.env_volume == 0 && g2.env_dir > 0 && !g2.env_hold
            &&& (shape / 4) % 2 == 0 ==> g2.env_volume == 15 && g2.env_dir < 0 && !g2.env_hold
        },
{
    assert((shape & 1 != 0) == (shape % 2 == 1) && (shape & 2 != 0) == ((shape / 2) % 2 == 1)
        && (shape & 8 != 0) == ((shape / 8) % 2 == 1) && (shape & 0x04 != 0) == ((shape / 4) % 2 == 1)) by (bit_vector);
}

} // verus!
