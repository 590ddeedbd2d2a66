//! The assembled machine: one CPU and the hardware it draws on, with the
//! dispatch that applies each host effect the CPU produces to that hardware.

use vstd::prelude::*;
use crate::cpu::{
    boot_state, spec_nn, step_spec, Cpu, CpuState, Fault, Hack, Message, MEMORY_SIZE,
    PROGRAM_START,
};
use crate::data::{fontset, fontset_spec, FONTSET_SIZE};
use crate::hardware::{Hardware, HardwareState, KEY_COUNT, SCREEN_PIXELS, SCREEN_WIDTH};

verus! {

/// The longest program that fits between the program start and the end of
/// memory.
pub const MAX_PROGRAM_SIZE: usize = 3584;

/// The mathematical state of the assembled machine.
pub ghost struct Chip8State {
    pub cpu: CpuState,
    pub hardware: HardwareState,
}

impl Chip8State {
    /// Structural well-formedness of both halves.
    pub open spec fn wf(self) -> bool {
        &&& self.cpu.wf()
        &&& self.hardware.wf()
    }
}

/// One CPU and its hardware.
pub struct Chip8 {
    pub cpu: Cpu,
    pub hardware: Hardware,
}

impl View for Chip8 {
    type V = Chip8State;

    open spec fn view(&self) -> Chip8State {
        Chip8State { cpu: self.cpu@, hardware: self.hardware@ }
    }
}

/// Memory as construction leaves it: the font table at the bottom, the
/// program at the program start, zero everywhere else.
pub open spec fn loaded_memory(program: Seq<u8>) -> Seq<u8> {
    Seq::new(MEMORY_SIZE as nat, |a: int|
        if a < FONTSET_SIZE {
            fontset_spec()[a]
        } else if PROGRAM_START <= a < PROGRAM_START + program.len() {
            program[a - PROGRAM_START]
        } else {
            0u8
        })
}

/// The sprite bit for column `rx` of a sprite row byte; column 0 is the most
/// significant bit.
pub open spec fn sprite_bit(row: u8, rx: int) -> u8
    recommends
        0 <= rx < 8,
{
    (row >> ((7 - rx) as u8)) & 1
}

/// Whether screen pixel `p` has been touched once the draw of a sprite of
/// height `h` at `(x0, y0)` has processed its first `k` sprite pixels (row by
/// row, left to right).
pub open spec fn draw_covered(x0: u8, y0: u8, h: u8, k: int, p: int) -> bool {
    let ry = p / 64 - y0;
    let rx = p % 64 - x0;
    &&& 0 <= ry < h
    &&& 0 <= rx < 8
    &&& ry * 8 + rx < k
}

/// The value a covered screen pixel takes: its old value XOR the sprite bit
/// that lands on it.  The sprite rows are read from memory at the index
/// register.
pub open spec fn draw_pixel(c: Chip8State, x0: u8, y0: u8, p: int) -> u8 {
    c.hardware.gfx[p] ^ sprite_bit(c.cpu.memory[c.cpu.i + (p / 64 - y0)], p % 64 - x0)
}

/// Whether the sprite bit landing on pixel `p` would flip it from lit to
/// dark.
pub open spec fn flip_at(c: Chip8State, x0: u8, y0: u8, p: int) -> bool {
    &&& c.hardware.gfx[p] == 1
    &&& sprite_bit(c.cpu.memory[c.cpu.i + (p / 64 - y0)], p % 64 - x0) == 1
}

/// The pixel buffer once the first `k` sprite pixels have been processed.
pub open spec fn draw_gfx(c: Chip8State, x0: u8, y0: u8, h: u8, k: int) -> Seq<u8> {
    Seq::new(c.hardware.gfx.len(), |p: int|
        if draw_covered(x0, y0, h, k, p) {
            draw_pixel(c, x0, y0, p)
        } else {
            c.hardware.gfx[p]
        })
}

/// Whether any of the first `k` sprite pixels flipped a lit pixel dark.
pub open spec fn draw_flipped(c: Chip8State, x0: u8, y0: u8, h: u8, k: int) -> bool {
    exists|p: int|
        0 <= p < c.hardware.gfx.len() && #[trigger] draw_covered(x0, y0, h, k, p) && flip_at(
            c,
            x0,
            y0,
            p,
        )
}

/// Whether a draw of height `h` would read a sprite row from beyond the end
/// of memory.  Every row is read, even one whose pixels all fall off screen.
pub open spec fn draw_fault(c: Chip8State, h: u8) -> bool {
    h > 0 && c.cpu.i + h > MEMORY_SIZE
}

/// The machine after a completed draw: the sprite XORed into the on-screen
/// part of the buffer, and register 15 holding 1 exactly when some pixel
/// flipped from lit to dark.
pub open spec fn draw_spec(c: Chip8State, bx: u8, by: u8, h: u8) -> Chip8State
    recommends
        c.wf(),
        0 <= bx < 16,
        0 <= by < 16,
        !draw_fault(c, h),
{
    let x0 = c.cpu.v[bx as int];
    let y0 = c.cpu.v[by as int];
    let flag: u8 = if draw_flipped(c, x0, y0, h, 8 * h) {
        1
    } else {
        0
    };
    Chip8State {
        cpu: CpuState { v: c.cpu.v.update(15, flag), ..c.cpu },
        hardware: HardwareState { gfx: draw_gfx(c, x0, y0, h, 8 * h), ..c.hardware },
    }
}

/// The CPU after a key-conditional instruction, given the key pad: selector
/// `0x9E` skips the next instruction when the key in slot `x` is down,
/// selector `0xA1` when it is up; any other selector does nothing.
pub open spec fn key_spec(s: CpuState, keys: Seq<bool>, x: int, nn: u8) -> CpuState
    recommends
        s.wf(),
        0 <= x < 16,
{
    if nn == 0x9E {
        if keys[x] {
            CpuState { pc: (s.pc + 2) as u16, ..s }
        } else {
            s
        }
    } else if nn == 0xA1 {
        if !keys[x] {
            CpuState { pc: (s.pc + 2) as u16, ..s }
        } else {
            s
        }
    } else {
        s
    }
}

/// One step of the assembled machine, as a mathematical function of its
/// state and of the byte the random-number source would supply: the CPU
/// steps, and the host effect it produces is applied to the hardware — a
/// clear darkens the screen, a draw lands on the pixel buffer, a
/// key-conditional reads the key pad and possibly skips.  The draw and
/// await-key effects stay visible to the caller; the others are consumed
/// here.  A fault, whether from the CPU step or from a sprite row out of
/// range, leaves the machine exactly as it was.
pub open spec fn chip8_step_spec(c: Chip8State, rnd: u8) -> (Chip8State, Result<Message, Fault>)
    recommends
        c.wf(),
{
    let (s2, res) = step_spec(c.cpu, rnd);
    match res {
        Err(fault) => (c, Err(fault)),
        Ok(message) => match message {
            Message::Clear => (
                Chip8State {
                    cpu: s2,
                    hardware: HardwareState {
                        gfx: Seq::new(SCREEN_PIXELS as nat, |j: int| 0u8),
                        ..c.hardware
                    },
                },
                Ok(Message::NoMessage),
            ),
            Message::Draw(bx, by, h) => {
                let c2 = Chip8State { cpu: s2, hardware: c.hardware };
                if draw_fault(c2, h) {
                    (c, Err(Fault::AddressOutOfRange))
                } else {
                    (draw_spec(c2, bx, by, h), Ok(Message::Draw(bx, by, h)))
                }
            },
            Message::Keys(bx, b3, b4) => (
                Chip8State {
                    cpu: key_spec(s2, c.hardware.keys, bx as int, spec_nn(b3, b4)),
                    hardware: c.hardware,
                },
                Ok(Message::NoMessage),
            ),
            Message::GetKey(bx) => (
                Chip8State { cpu: s2, hardware: c.hardware },
                Ok(Message::GetKey(bx)),
            ),
            Message::NoMessage => (
                Chip8State { cpu: s2, hardware: c.hardware },
                Ok(Message::NoMessage),
            ),
        },
    }
}

impl Chip8 {
    /// A machine with the font table and the given program copied into
    /// memory, everything else as a fresh boot leaves it, and dark, silent
    /// hardware.
    pub fn new(program: &Vec<u8>, hack: Hack) -> (r: Chip8)
        requires
            program@.len() <= MAX_PROGRAM_SIZE,
        ensures
            r@.cpu == (CpuState {
                memory: loaded_memory(program@),
                ..boot_state(hack.shift_hack, hack.memory_hack)
            }),
            r@.hardware == (HardwareState {
                gfx: Seq::new(SCREEN_PIXELS as nat, |j: int| 0u8),
                keys: Seq::new(KEY_COUNT as nat, |j: int| false),
            }),
            r@.wf(),
    {
        let mut cpu = Cpu::new(hack);
        let font = fontset();
        let mut k: usize = 0;
        proof {
            assert(cpu@.memory =~= Seq::new(MEMORY_SIZE as nat, |a: int|
                if a < k {
                    fontset_spec()[a]
                } else {
                    0u8
                }));
        }
        while k < FONTSET_SIZE
            invariant
                k <= FONTSET_SIZE,
                font@ == fontset_spec(),
                cpu@ == (CpuState {
                    memory: Seq::new(MEMORY_SIZE as nat, |a: int|
                        if a < k {
                            fontset_spec()[a]
                        } else {
                            0u8
                        }),
                    ..boot_state(hack.shift_hack, hack.memory_hack)
                }),
            decreases FONTSET_SIZE - k,
        {
            cpu.memory[k] = font[k];
            k = k + 1;
            proof {
                assert(cpu@.memory =~= Seq::new(MEMORY_SIZE as nat, |a: int|
                    if a < k {
                        fontset_spec()[a]
                    } else {
                        0u8
                    }));
            }
        }
        let mut k: usize = 0;
        proof {
            assert(cpu@.memory =~= Seq::new(MEMORY_SIZE as nat, |a: int|
                if a < FONTSET_SIZE {
                    fontset_spec()[a]
                } else if PROGRAM_START <= a < PROGRAM_START + k {
                    program@[a - PROGRAM_START]
                } else {
                    0u8
                }));
        }
        while k < program.len()
            invariant
                k <= program@.len() <= MAX_PROGRAM_SIZE,
                cpu@ == (CpuState {
                    memory: Seq::new(MEMORY_SIZE as nat, |a: int|
                        if a < FONTSET_SIZE {
                            fontset_spec()[a]
                        } else if PROGRAM_START <= a < PROGRAM_START + k {
                            program@[a - PROGRAM_START]
                        } else {
                            0u8
                        }),
                    ..boot_state(hack.shift_hack, hack.memory_hack)
                }),
            decreases program@.len() - k,
        {
            cpu.memory[PROGRAM_START as usize + k] = program[k];
            k = k + 1;
            proof {
                assert(cpu@.memory =~= Seq::new(MEMORY_SIZE as nat, |a: int|
                    if a < FONTSET_SIZE {
                        fontset_spec()[a]
                    } else if PROGRAM_START <= a < PROGRAM_START + k {
                        program@[a - PROGRAM_START]
                    } else {
                        0u8
                    }));
            }
        }
        proof {
            assert(cpu@.memory =~= loaded_memory(program@));
        }
        Chip8 { cpu, hardware: Hardware::new() }
    }

    /// `DXYN`: XOR a sprite of height `bits4`, read from memory at the index
    /// register, into the pixel buffer at the point registers `X` and `Y`
    /// name; pixels falling off screen are dropped.  Register 15 is set to 1
    /// exactly when some lit pixel went dark.  A sprite row beyond the end of
    /// memory is a fault that leaves the machine untouched.
    pub fn draw(&mut self, bits2: u8, bits3: u8, bits4: u8) -> (r: Result<(), Fault>)
        requires
            old(self)@.wf(),
            bits2 < 16,
            bits3 < 16,
            bits4 < 16,
        ensures
            !draw_fault(old(self)@, bits4) ==> {
                &&& r == Ok::<(), Fault>(())
                &&& final(self)@ == draw_spec(old(self)@, bits2, bits3, bits4)
            },
            draw_fault(old(self)@, bits4) ==> {
                &&& r == Err::<(), Fault>(Fault::AddressOutOfRange)
                &&& final(self)@ == old(self)@
            },
    {
        let height = bits4;
        if height > 0 && self.cpu.i as usize + height as usize > MEMORY_SIZE {
            return Err(Fault::AddressOutOfRange);
        }
        let x0 = self.cpu.v[bits2 as usize];
        let y0 = self.cpu.v[bits3 as usize];
        let mut flipped: u8 = 0;
        let mut ry: u8 = 0;
        proof {
            assert(draw_gfx(old(self)@, x0, y0, height, 0) =~= old(self)@.hardware.gfx);
        }
        while ry < height
            invariant
                old(self)@.wf(),
                ry <= height,
                height < 16,
                height > 0 ==> old(self)@.cpu.i + height <= MEMORY_SIZE,
                x0 == old(self)@.cpu.v[bits2 as int],
                y0 == old(self)@.cpu.v[bits3 as int],
                self@.cpu == old(self)@.cpu,
                self@.hardware.keys == old(self)@.hardware.keys,
                self@.hardware.gfx == draw_gfx(old(self)@, x0, y0, height, 8 * ry),
                flipped == if draw_flipped(old(self)@, x0, y0, height, 8 * ry) {
                    1u8
                } else {
                    0u8
                },
            decreases height - ry,
        {
            let row = self.cpu.memory[self.cpu.i as usize + ry as usize];
            let mut rx: u8 = 0;
            while rx < 8
                invariant
                    old(self)@.wf(),
                    rx <= 8,
                    ry < height,
                    height < 16,
                    old(self)@.cpu.i + height <= MEMORY_SIZE,
                    x0 == old(self)@.cpu.v[bits2 as int],
                    y0 == old(self)@.cpu.v[bits3 as int],
                    row == old(self)@.cpu.memory[old(self)@.cpu.i + ry],
                    self@.cpu == old(self)@.cpu,
                    self@.hardware.keys == old(self)@.hardware.keys,
                    self@.hardware.gfx == draw_gfx(old(self)@, x0, y0, height, 8 * ry + rx),
                    flipped == if draw_flipped(old(self)@, x0, y0, height, 8 * ry + rx) {
                        1u8
                    } else {
                        0u8
                    },
                decreases 8 - rx,
            {
                let ghost k: int = 8 * ry + rx;
                let gx = x0 as usize + rx as usize;
                let gy = y0 as usize + ry as usize;
                if gx < SCREEN_WIDTH && gy < 32 {
                    let bit = (row >> (7 - rx)) & 1;
                    let p = gy * SCREEN_WIDTH + gx;
                    proof {
                        assert(p < SCREEN_PIXELS) by (nonlinear_arith)
                            requires
                                gy < 32,
                                gx < 64,
                                p == gy * 64 + gx,
                        ;
                        assert(p as int / 64 == gy && p as int % 64 == gx) by (nonlinear_arith)
                            requires
                                gx < 64,
                                p == gy * 64 + gx,
                        ;
                        assert(!draw_covered(x0, y0, height, k, p as int));
                        assert(bit == sprite_bit(
                            old(self)@.cpu.memory[old(self)@.cpu.i + ry],
                            rx as int,
                        ));
                    }
                    let prev = self.hardware.gfx[p];
                    let next = prev ^ bit;
                    if prev == 1 && next == 0 {
                        flipped = 1;
                        proof {
                            assert(prev == old(self)@.hardware.gfx[p as int]);
                            assert((1u8 ^ bit) == 0u8 ==> bit == 1u8) by (bit_vector);
                            assert(flip_at(old(self)@, x0, y0, p as int));
                            assert(draw_covered(x0, y0, height, k + 1, p as int));
                            assert(draw_flipped(old(self)@, x0, y0, height, k + 1));
                        }
                    }
                    self.hardware.gfx[p] = next;
                    proof {
                        assert forall|q: int| 0 <= q < SCREEN_PIXELS implies (draw_covered(
                            x0,
                            y0,
                            height,
                            k + 1,
                            q,
                        ) == (draw_covered(x0, y0, height, k, q) || q == p)) by {
                            vstd::arithmetic::div_mod::lemma_fundamental_div_mod(q, 64);
                            vstd::arithmetic::div_mod::lemma_mod_bound(q, 64);
                            if draw_covered(x0, y0, height, k + 1, q) && !draw_covered(
                                x0,
                                y0,
                                height,
                                k,
                                q,
                            ) {
                                let qry = q / 64 - y0;
                                let qrx = q % 64 - x0;
                                assert(qry * 8 + qrx == k);
                                assert(qry == ry && qrx == rx) by (nonlinear_arith)
                                    requires
                                        0 <= qrx < 8,
                                        0 <= rx < 8,
                                        qry * 8 + qrx == k,
                                        k == 8 * ry + rx,
                                ;
                                assert(q == p);
                            }
                        }
                        assert(self@.hardware.gfx =~= draw_gfx(
                            old(self)@,
                            x0,
                            y0,
                            height,
                            k + 1,
                        ));
                        if flipped == 0 {
                            assert(!draw_flipped(old(self)@, x0, y0, height, k));
                            if draw_flipped(old(self)@, x0, y0, height, k + 1) {
                                let q = choose|q: int|
                                    0 <= q < SCREEN_PIXELS && #[trigger] draw_covered(
                                        x0,
                                        y0,
                                        height,
                                        k + 1,
                                        q,
                                    ) && flip_at(old(self)@, x0, y0, q);
                                if q != p {
                                    assert(draw_covered(x0, y0, height, k, q));
                                    assert(draw_flipped(old(self)@, x0, y0, height, k));
                                }
                                assert(q == p);
                                assert((1u8 ^ 1u8) == 0u8) by (bit_vector);
                                assert(false);
                            }
                        } else {
                            assert(draw_flipped(old(self)@, x0, y0, height, k + 1));
                        }
                    }
                } else {
                    proof {
                        assert forall|q: int| 0 <= q < SCREEN_PIXELS implies (draw_covered(
                            x0,
                            y0,
                            height,
                            k + 1,
                            q,
                        ) == draw_covered(x0, y0, height, k, q)) by {
                            vstd::arithmetic::div_mod::lemma_fundamental_div_mod(q, 64);
                            vstd::arithmetic::div_mod::lemma_mod_bound(q, 64);
                            if draw_covered(x0, y0, height, k + 1, q) && !draw_covered(
                                x0,
                                y0,
                                height,
                                k,
                                q,
                            ) {
                                let qry = q / 64 - y0;
                                let qrx = q % 64 - x0;
                                assert(qry * 8 + qrx == k);
                                assert(qry == ry && qrx == rx) by (nonlinear_arith)
                                    requires
                                        0 <= qrx < 8,
                                        0 <= rx < 8,
                                        qry * 8 + qrx == k,
                                        k == 8 * ry + rx,
                                ;
                                assert(q / 64 == y0 + ry && q % 64 == x0 + rx);
                                assert(false);
                            }
                        }
                        assert(self@.hardware.gfx =~= draw_gfx(
                            old(self)@,
                            x0,
                            y0,
                            height,
                            k + 1,
                        ));
                        if draw_flipped(old(self)@, x0, y0, height, k + 1) {
                            let q = choose|q: int|
                                0 <= q < SCREEN_PIXELS && #[trigger] draw_covered(
                                    x0,
                                    y0,
                                    height,
                                    k + 1,
                                    q,
                                ) && flip_at(old(self)@, x0, y0, q);
                            assert(draw_covered(x0, y0, height, k, q));
                            assert(draw_flipped(old(self)@, x0, y0, height, k));
                        }
                        if draw_flipped(old(self)@, x0, y0, height, k) {
                            let q = choose|q: int|
                                0 <= q < SCREEN_PIXELS && #[trigger] draw_covered(
                                    x0,
                                    y0,
                                    height,
                                    k,
                                    q,
                                ) && flip_at(old(self)@, x0, y0, q);
                            assert(draw_covered(x0, y0, height, k + 1, q));
                            assert(draw_flipped(old(self)@, x0, y0, height, k + 1));
                        }
                    }
                }
                rx = rx + 1;
            }
            ry = ry + 1;
        }
        self.cpu.v[15] = flipped;
        proof {
            assert(8 * ry == 8 * bits4);
            assert(self@.hardware.gfx =~= draw_spec(
                old(self)@,
                bits2,
                bits3,
                bits4,
            ).hardware.gfx);
            assert(self@.cpu.v =~= draw_spec(old(self)@, bits2, bits3, bits4).cpu.v);
        }
        Ok(())
    }

    /// One step of the assembled machine: the CPU steps, and the host effect
    /// it owes is applied to the hardware here — a clear darkens the screen,
    /// a draw lands on the pixel buffer, a key-conditional reads the key pad.
    /// The full semantics are `chip8_step_spec`.  The returned effect is what
    /// the surrounding driver still has to act on: a completed draw (so it
    /// can present the buffer) or an await-key (so it can deliver one); all
    /// else is consumed here.  On a fault the machine is left exactly as it
    /// was.
    pub fn step(&mut self) -> (r: Result<Message, Fault>)
        requires
            old(self)@.wf(),
        ensures
            final(self)@.wf(),
            exists|b: u8| #[trigger] chip8_step_spec(old(self)@, b) == (final(self)@, r),
    {
        let cpu_result = self.cpu.step();
        let ghost b: u8 = choose|b: u8|
            step_spec(old(self)@.cpu, b) == (self@.cpu, cpu_result);
        proof {
            assert(step_spec(old(self)@.cpu, b) == (self@.cpu, cpu_result));
        }
        match cpu_result {
            Err(fault) => {
                proof {
                    assert(chip8_step_spec(old(self)@, b) == (
                        self@,
                        Err::<Message, Fault>(fault),
                    ));
                }
                Err(fault)
            }
            Ok(message) => match message {
                Message::Clear => {
                    self.hardware.clear();
                    proof {
                        assert(chip8_step_spec(old(self)@, b) == (
                            self@,
                            Ok::<Message, Fault>(Message::NoMessage),
                        ));
                    }
                    Ok(Message::NoMessage)
                }
                Message::Draw(bits2, bits3, bits4) => {
                    proof {
                        assert(bits2 < 16 && bits3 < 16 && bits4 < 16);
                    }
                    match self.draw(bits2, bits3, bits4) {
                        Ok(()) => {
                            proof {
                                assert(chip8_step_spec(old(self)@, b) == (
                                    self@,
                                    Ok::<Message, Fault>(Message::Draw(bits2, bits3, bits4)),
                                ));
                            }
                            Ok(Message::Draw(bits2, bits3, bits4))
                        }
                        Err(fault) => {
                            self.cpu.pc = self.cpu.pc - 2;
                            proof {
                                assert(self@.cpu =~= old(self)@.cpu);
                                assert(chip8_step_spec(old(self)@, b) == (
                                    self@,
                                    Err::<Message, Fault>(fault),
                                ));
                            }
                            Err(fault)
                        }
                    }
                }
                Message::Keys(bits2, bits3, bits4) => {
                    proof {
                        assert(bits2 < 16 && bits3 < 16 && bits4 < 16);
                    }
                    self.key(bits2, bits3, bits4);
                    proof {
                        assert(chip8_step_spec(old(self)@, b) == (
                            self@,
                            Ok::<Message, Fault>(Message::NoMessage),
                        ));
                    }
                    Ok(Message::NoMessage)
                }
                Message::GetKey(bits2) => {
                    proof {
                        assert(chip8_step_spec(old(self)@, b) == (
                            self@,
                            Ok::<Message, Fault>(Message::GetKey(bits2)),
                        ));
                    }
                    Ok(Message::GetKey(bits2))
                }
                Message::NoMessage => {
                    proof {
                        assert(chip8_step_spec(old(self)@, b) == (
                            self@,
                            Ok::<Message, Fault>(Message::NoMessage),
                        ));
                    }
                    Ok(Message::NoMessage)
                }
            },
        }
    }

    /// `EX9E` / `EXA1`: skip the next instruction depending on whether the
    /// key in slot `X` is down; the exact semantics are `key_spec`.
    pub fn key(&mut self, bits2: u8, bits3: u8, bits4: u8)
        requires
            old(self)@.wf(),
            bits2 < 16,
            bits3 < 16,
            bits4 < 16,
            old(self).cpu.pc + 2 <= u16::MAX,
        ensures
            final(self)@ == (Chip8State {
                cpu: key_spec(
                    old(self)@.cpu,
                    old(self)@.hardware.keys,
                    bits2 as int,
                    spec_nn(bits3, bits4),
                ),
                hardware: old(self)@.hardware,
            }),
    {
        let two_last: u8 = bits3 * 0x10 + bits4;
        if two_last == 0x9E {
            if self.hardware.keys[bits2 as usize] {
                self.cpu.pc = self.cpu.pc + 2;
            }
        } else if two_last == 0xA1 {
            if !self.hardware.keys[bits2 as usize] {
                self.cpu.pc = self.cpu.pc + 2;
            }
        }
    }
}

} // verus!
