//! The whole MSX: CPU and bus run frame by frame; each frame runs the CPU
//! for a frame's worth of cycles with the sound generator and keyboard
//! kept in step, then raises the vertical-blank interrupt, renders the
//! picture and collects the sound.
use vstd::prelude::*;
use crate::msx::z80::{Z80, BusAccess, power_on, after_reset, cycles_ok};
use crate::msx::z80_spec::{s_step, s_interrupt};
use crate::msx::memory::{Bus, BusView};
use crate::msx::vdp::{VdpView, FRAME_BYTES, pixel_bytes_are, frame_pixel};
use crate::msx::psg::{gen_steps, mix, GenState};
use crate::msx::ppi::spec_update_keyboard;

verus! {

/// CPU cycles per video frame.
pub const CYCLES_PER_FRAME: u32 = 59667;

pub struct MsxState {
    pub cpu: Z80,
    pub bus: Bus,
    pub frame_buffer: Vec<u8>,
    /// The channel levels of the samples of the last frame.
    pub audio_buffer: Vec<[u8; 3]>,
}

/// The sound generator run for `c` cycles, emitting one sample per 81
/// cycles accumulated.
pub open spec fn psg_run(b: BusView, c: nat) -> BusView {
    let g = gen_steps(b.psg_gen, b.psg_regs, c);
    let total = b.psg_sample_counter + c;
    BusView {
        psg_gen: g,
        psg_sample_counter: (total % 81) as u32,
        psg_samples: b.psg_samples + Seq::new((total / 81) as nat, |i: int| mix(g, b.psg_regs)),
        ..b
    }
}

/// One CPU instruction on this bus.
#[verifier::opaque]
pub open spec fn cpu_step(cpu: Z80, b: BusView) -> (Z80, BusView) {
    s_step::<Bus>(cpu, b)
}

/// Cycles left in the frame after `run`.
pub open spec fn frame_left(run: int) -> int {
    if run >= CYCLES_PER_FRAME {
        0
    } else {
        CYCLES_PER_FRAME - run
    }
}

/// One CPU instruction with the sound generator and the keyboard latch kept
/// in step: the new CPU, the new bus and the cycles taken.
pub open spec fn machine_step(cpu: Z80, b: BusView) -> (Z80, BusView, int) {
    let (c1, b1) = cpu_step(cpu, b);
    let c = c1.cycles - cpu.cycles;
    let b2 = psg_run(b1, c as nat);
    (c1, BusView { ppi: spec_update_keyboard(b2.ppi, b2.keys), ..b2 }, c)
}

/// Runs instructions from `run` cycles into the frame until the frame's
/// cycles are used up.
pub open spec fn run_frame(cpu: Z80, b: BusView, run: int) -> (Z80, BusView)
    decreases frame_left(run),
{
    if run >= CYCLES_PER_FRAME {
        (cpu, b)
    } else {
        let (c1, b1, c) = machine_step(cpu, b);
        if c <= 0 {
            (c1, b1)
        } else {
            run_frame(c1, b1, run + c)
        }
    }
}

/// The bus at the start of a frame: vertical blank flagged and the
/// interrupt pending.
pub open spec fn vblank(b: BusView) -> BusView {
    BusView { vdp: VdpView { int_pending: true, status: b.vdp.status | 0x80, ..b.vdp }, ..b }
}

/// CPU and bus at the end of a frame, before the picture is drawn and the
/// sound collected: the frame run, then the interrupt (data 0xFF) if the
/// VDP has one pending and enabled.
pub open spec fn frame_end(cpu: Z80, b: BusView) -> (Z80, BusView) {
    let (c1, b1) = run_frame(cpu, vblank(b), 0);
    let taken = b1.vdp.int_pending && b1.vdp.regs[1] & 0x20 != 0;
    if taken {
        s_interrupt::<Bus>(c1, BusView { vdp: VdpView { int_pending: false, ..b1.vdp }, ..b1 }, 0xFF)
    } else {
        (c1, b1)
    }
}

/// The jiffy counter's next value (a byte that wraps).
pub open spec fn jiffy_next(j: u8) -> u8 {
    if j == 255 {
        0
    } else {
        (j + 1) as u8
    }
}

impl MsxState {
    /// One instruction, with the sound generator and keyboard latch kept in
    /// step; returns the cycles it took.
    fn step_machine(&mut self) -> (c: u32)
        requires
            old(self).bus.psg.wf(),
            cycles_ok(old(self).cpu),
        ensures
            final(self).bus.psg.wf(),
            4 <= c <= 23,
            final(self).cpu.cycles == old(self).cpu.cycles + c,
            final(self).frame_buffer@ == old(self).frame_buffer@,
            machine_step(old(self).cpu, old(self).bus.view_of()) == (final(self).cpu, final(self).bus.view_of(), c as int),
    {
        let c = self.cpu.step(&mut self.bus);
        let ghost b1 = self.bus.view_of();
        proof {
            reveal(cpu_step);
            assert(cpu_step(old(self).cpu, old(self).bus.view_of()) == (self.cpu, b1));
        }
        self.bus.psg.tick(c);
        self.bus.ppi.update_keyboard(&self.bus.keyboard);
        proof {
            assert(self.bus.view_of().psg_samples =~= psg_run(b1, c as nat).psg_samples);
        }
        c
    }

    /// A machine just switched on: CPU reset, empty memory, black frame.
    pub fn new() -> (m: Self)
        ensures
            m.cpu == after_reset(power_on()),
            m.bus.view_of().ram == Seq::new(65536, |i: int| 0u8),
            m.bus.psg.wf(),
            m.frame_buffer@ == Seq::new(FRAME_BYTES as nat, |i: int| 0u8),
            m.audio_buffer@.len() == 0,
    {
        let mut state = MsxState {
            cpu: Z80::new(),
            bus: Bus::new(),
            frame_buffer: vec![0u8; FRAME_BYTES],
            audio_buffer: Vec::new(),
        };
        state.cpu.reset();
        assert(state.frame_buffer@ =~= Seq::new(FRAME_BYTES as nat, |i: int| 0u8));
        state
    }

    /// Runs one video frame (see `frame_end`), renders the picture into
    /// the frame buffer, moves the frame's sound samples to the audio
    /// buffer and counts the BIOS jiffy counter at 0xFC9E up by one.
    pub fn tick_frame(&mut self)
        requires
            old(self).bus.psg.wf(),
            old(self).cpu.cycles <= u64::MAX - 100_000,
            old(self).frame_buffer@.len() == FRAME_BYTES,
        ensures
            ({
                let (c, b) = frame_end(old(self).cpu, old(self).bus.view_of());
                &&& final(self).cpu == c
                &&& final(self).bus.view_of() == BusView {
                    psg_samples: Seq::empty(),
                    ram: b.ram.update(0xFC9E, jiffy_next(b.ram[0xFC9E])),
                    ..b
                }
                &&& final(self).audio_buffer@ == b.psg_samples
                &&& forall|q: int| 0 <= q < 49152 ==> #[trigger] pixel_bytes_are(final(self).frame_buffer@, q, frame_pixel(b.vdp, q % 256, q / 256))
            }),
            final(self).frame_buffer@.len() == FRAME_BYTES,
            final(self).bus.psg.wf(),
    {
        let ghost start_cycles = self.cpu.cycles;
        self.bus.vdp.int_pending = true;
        self.bus.vdp.status = self.bus.vdp.status | 0x80;
        let ghost b0 = self.bus.view_of();
        let ghost c0 = self.cpu;
        proof {
            assert(b0 == vblank(old(self).bus.view_of()));
        }
        let mut cycles_run: u32 = 0;
        while cycles_run < CYCLES_PER_FRAME
            invariant
                cycles_run <= CYCLES_PER_FRAME + 23,
                self.cpu.cycles == start_cycles + cycles_run,
                start_cycles <= u64::MAX - 100_000,
                self.bus.psg.wf(),
                self.frame_buffer@.len() == FRAME_BYTES,
                run_frame(c0, b0, 0) == run_frame(self.cpu, self.bus.view_of(), cycles_run as int),
            decreases frame_left(cycles_run as int),
        {
            let ghost cpu_before = self.cpu;
            let ghost bus_before = self.bus.view_of();
            let c = self.step_machine();
            cycles_run = cycles_run + c;
        }
        let ghost b1 = self.bus.view_of();
        let ghost c1 = self.cpu;
        if self.bus.vdp.take_interrupt() {
            self.cpu.interrupt(&mut self.bus, 0xFF);
        }
        let ghost b2 = self.bus.view_of();
        proof {
            assert((self.cpu, b2) == frame_end(old(self).cpu, old(self).bus.view_of()));
        }
        self.bus.vdp.render_frame(&mut self.frame_buffer);
        self.audio_buffer = self.bus.psg.take_samples();
        let jiffy = self.bus.ram[0xFC9E].wrapping_add(1);
        self.bus.ram[0xFC9E] = jiffy;
        proof {
            assert(self.bus.view_of().ram =~= b2.ram.update(0xFC9E, jiffy_next(b2.ram[0xFC9E])));
            assert(self.bus.view_of().psg_samples =~= Seq::<[u8; 3]>::empty());
        }
    }
}

} // verus!
