//! The register/memory model of the virtual machine and the
//! fetch-decode-execute cycle that drives it.

use vstd::prelude::*;

verus! {

/// Total size of the addressable memory, in bytes.
pub const MEMORY_SIZE: usize = 4096;

/// Number of general-purpose registers.
pub const REGISTER_COUNT: usize = 16;

/// Address at which a loaded program begins; also the initial program counter.
pub const PROGRAM_START: u16 = 512;

/// Quirk configuration, fixed at construction time.  Each flag selects one of
/// two historically divergent hardware behaviours for the same opcode.
#[derive(Clone, Copy, PartialEq, Eq, Structural, Debug)]
pub struct Hack {
    /// Shift instructions read and modify the destination register itself
    /// instead of copying from the second operand register.
    pub shift_hack: bool,
    /// Bulk register dump/load leaves the index register unchanged instead of
    /// advancing it past the transferred range.
    pub memory_hack: bool,
}

/// The host effect a single step owes to the surrounding render/input loop.
#[derive(Clone, Copy, PartialEq, Eq, Structural, Debug)]
pub enum Message {
    /// The screen must be cleared.
    Clear,
    /// A sprite draw request: registers holding x and y, and the height.
    Draw(u8, u8, u8),
    /// A key-conditional branch request: register and the two selector nibbles.
    Keys(u8, u8, u8),
    /// Execution is halted until a key value is delivered into the register.
    GetKey(u8),
    /// Nothing owed to the host.
    NoMessage,
}

/// A fatal condition detected during a step.  The machine state is left
/// exactly as it was before the failing step.
#[derive(Clone, Copy, PartialEq, Eq, Structural, Debug)]
pub enum Fault {
    /// A return instruction found the call stack empty.
    StackUnderflow,
    /// An instruction addressed memory at or beyond its end.
    AddressOutOfRange,
}

/// The mathematical state of the machine, over which all contracts speak.
pub ghost struct CpuState {
    pub memory: Seq<u8>,
    pub v: Seq<u8>,
    pub i: u16,
    pub pc: u16,
    pub delay_timer: u8,
    pub sound_timer: u8,
    pub stack: Seq<u16>,
    pub halted: bool,
    pub shift_hack: bool,
    pub memory_hack: bool,
}

impl CpuState {
    /// Structural well-formedness: the memory and register file have their
    /// fixed sizes.
    pub open spec fn wf(self) -> bool {
        &&& self.memory.len() == MEMORY_SIZE
        &&& self.v.len() == REGISTER_COUNT
    }
}

/// The state a freshly constructed machine is in: memory and registers zero,
/// program counter at the program start, stack empty, timers zero, running.
pub open spec fn boot_state(shift_hack: bool, memory_hack: bool) -> CpuState {
    CpuState {
        memory: Seq::new(MEMORY_SIZE as nat, |j: int| 0u8),
        v: Seq::new(REGISTER_COUNT as nat, |j: int| 0u8),
        i: 0,
        pc: PROGRAM_START,
        delay_timer: 0,
        sound_timer: 0,
        stack: Seq::empty(),
        halted: false,
        shift_hack,
        memory_hack,
    }
}

/// The machine: sixteen 8-bit registers, 4096 bytes of memory, a 16-bit
/// index register and program counter, two 8-bit timers, a call stack, a
/// halted flag, and the quirk configuration.
pub struct Cpu {
    pub memory: Vec<u8>,
    pub v: Vec<u8>,
    pub i: u16,
    pub pc: u16,
    pub delay_timer: u8,
    pub sound_timer: u8,
    pub stack: Vec<u16>,
    pub halted: bool,
    pub hack: Hack,
}

impl View for Cpu {
    type V = CpuState;

    open spec fn view(&self) -> CpuState {
        CpuState {
            memory: self.memory@,
            v: self.v@,
            i: self.i,
            pc: self.pc,
            delay_timer: self.delay_timer,
            sound_timer: self.sound_timer,
            stack: self.stack@,
            halted: self.halted,
            shift_hack: self.hack.shift_hack,
            memory_hack: self.hack.memory_hack,
        }
    }
}

/// The 12-bit address operand assembled from three nibbles.
pub open spec fn spec_nnn(b2: u8, b3: u8, b4: u8) -> u16 {
    (b2 * 0x100 + b3 * 0x10 + b4) as u16
}

/// The 8-bit immediate operand assembled from two nibbles.
pub open spec fn spec_nn(b3: u8, b4: u8) -> u8 {
    (b3 * 0x10 + b4) as u8
}

/// 8-bit wrapping addition.
pub open spec fn wrap_add(a: u8, b: u8) -> u8 {
    ((a + b) % 256) as u8
}

/// 8-bit wrapping subtraction.
pub open spec fn wrap_sub(a: u8, b: u8) -> u8 {
    if a >= b {
        (a - b) as u8
    } else {
        (a + 256 - b) as u8
    }
}

/// `CXNN` with a drawn byte `b`: register `x` holds `b` masked with `nn`.
pub open spec fn random_spec(s: CpuState, x: int, nn: u8, b: u8) -> CpuState
    recommends
        s.wf(),
        0 <= x < 16,
{
    CpuState { v: s.v.update(x, b & nn), ..s }
}

/// The register-register ALU group: `op` selects the operation, `x` and `y`
/// the operand registers.  Operations 4, 5, 6, 7 and 0xE additionally write
/// register 15 as a carry/borrow/shifted-out-bit flag, computed from the
/// operand values before any register is written.  Unlisted `op` values leave
/// the state unchanged (permissive decode).
pub open spec fn alu_spec(s: CpuState, x: int, y: int, op: u8) -> CpuState
    recommends
        s.wf(),
        0 <= x < 16,
        0 <= y < 16,
{
    let vx = s.v[x];
    let vy = s.v[y];
    if op == 0x0 {
        CpuState { v: s.v.update(x, vy), ..s }
    } else if op == 0x1 {
        CpuState { v: s.v.update(x, vx | vy), ..s }
    } else if op == 0x2 {
        CpuState { v: s.v.update(x, vx & vy), ..s }
    } else if op == 0x3 {
        CpuState { v: s.v.update(x, vx ^ vy), ..s }
    } else if op == 0x4 {
        let flag: u8 = if vx + vy > 255 { 1 } else { 0 };
        CpuState { v: s.v.update(x, wrap_add(vx, vy)).update(15, flag), ..s }
    } else if op == 0x5 {
        let flag: u8 = if vx >= vy { 1 } else { 0 };
        CpuState { v: s.v.update(15, flag).update(x, wrap_sub(vx, vy)), ..s }
    } else if op == 0x6 {
        let src = if s.shift_hack { vx } else { vy };
        CpuState { v: s.v.update(15, src & 1).update(x, src >> 1), ..s }
    } else if op == 0x7 {
        let flag: u8 = if vy >= vx { 1 } else { 0 };
        CpuState { v: s.v.update(15, flag).update(x, wrap_sub(vy, vx)), ..s }
    } else if op == 0xE {
        let src = if s.shift_hack { vx } else { vy };
        CpuState { v: s.v.update(15, src >> 7).update(x, src << 1), ..s }
    } else {
        s
    }
}

/// Whether the timer/memory instruction `FX..` with selector `nn` would
/// address memory out of range, and so must fault without mutating anything.
pub open spec fn others_fault(s: CpuState, x: int, nn: u8) -> bool {
    if nn == 0x33 {
        s.i + 2 >= MEMORY_SIZE
    } else if nn == 0x55 || nn == 0x65 {
        s.i + x >= MEMORY_SIZE
    } else {
        false
    }
}

/// The index register after a bulk transfer over registers `0..=x`: advanced
/// past the transferred range, or restored if the quirk flag says so.
pub open spec fn bulk_index_after(s: CpuState, x: int) -> u16 {
    if s.memory_hack {
        s.i
    } else {
        (s.i + x + 1) as u16
    }
}

/// The timer and memory instruction group `FX..` (every selector except the
/// await-key one, which the step function handles itself), given that
/// `others_fault` does not hold.  Unlisted selectors leave the state
/// unchanged (permissive decode).
pub open spec fn others_spec(s: CpuState, x: int, nn: u8) -> CpuState
    recommends
        s.wf(),
        0 <= x < 16,
        !others_fault(s, x, nn),
{
    let vx = s.v[x];
    if nn == 0x07 {
        CpuState { v: s.v.update(x, s.delay_timer), ..s }
    } else if nn == 0x15 {
        CpuState { delay_timer: vx, ..s }
    } else if nn == 0x18 {
        CpuState { sound_timer: vx, ..s }
    } else if nn == 0x1E {
        let sum = ((s.i + vx) % 0x10000) as u16;
        let flag: u8 = if sum >= MEMORY_SIZE { 1 } else { 0 };
        CpuState { i: sum, v: s.v.update(15, flag), ..s }
    } else if nn == 0x29 {
        CpuState { i: (vx * 5) as u16, ..s }
    } else if nn == 0x33 {
        let m = s.memory
            .update(s.i as int, (vx / 100) as u8)
            .update(s.i + 1, ((vx % 100) / 10) as u8)
            .update(s.i + 2, (vx % 10) as u8);
        CpuState { memory: m, ..s }
    } else if nn == 0x55 {
        let m = Seq::new(s.memory.len(), |a: int|
            if s.i <= a <= s.i + x { s.v[a - s.i] } else { s.memory[a] });
        CpuState { memory: m, i: bulk_index_after(s, x), ..s }
    } else if nn == 0x65 {
        let regs = Seq::new(s.v.len(), |r: int|
            if r <= x { s.memory[s.i + r] } else { s.v[r] });
        CpuState { v: regs, i: bulk_index_after(s, x), ..s }
    } else {
        s
    }
}

/// One fetch-decode-execute step, as a mathematical function of the state and
/// of the byte `rnd` that the random-number source would hand the `CXNN`
/// instruction.  Every other instruction ignores `rnd`
/// (`lemma_step_ignores_rnd`).  Yields the state after the step and the host
/// effect or fault the step produces; a fault leaves the state exactly as it
/// was, the program counter included.
pub open spec fn step_spec(s: CpuState, rnd: u8) -> (CpuState, Result<Message, Fault>)
    recommends
        s.wf(),
{
    if s.halted {
        (s, Ok(Message::NoMessage))
    } else if s.pc + 1 >= MEMORY_SIZE {
        (s, Err(Fault::AddressOutOfRange))
    } else {
        let byte1 = s.memory[s.pc as int];
        let byte2 = s.memory[s.pc + 1];
        let b1 = (byte1 / 16) as u8;
        let b2 = (byte1 % 16) as u8;
        let b3 = (byte2 / 16) as u8;
        let b4 = (byte2 % 16) as u8;
        let s1 = CpuState { pc: (s.pc + 2) as u16, ..s };
        if b1 == 0x0 {
            if spec_nnn(b2, b3, b4) == 0x0E0 {
                (s1, Ok(Message::Clear))
            } else if spec_nnn(b2, b3, b4) == 0x0EE {
                if s1.stack.len() == 0 {
                    (s, Err(Fault::StackUnderflow))
                } else {
                    (
                        CpuState { pc: s1.stack.last(), stack: s1.stack.drop_last(), ..s1 },
                        Ok(Message::NoMessage),
                    )
                }
            } else {
                (s1, Ok(Message::NoMessage))
            }
        } else if b1 == 0x1 {
            (CpuState { pc: spec_nnn(b2, b3, b4), ..s1 }, Ok(Message::NoMessage))
        } else if b1 == 0x2 {
            (
                CpuState { pc: spec_nnn(b2, b3, b4), stack: s1.stack.push(s1.pc), ..s1 },
                Ok(Message::NoMessage),
            )
        } else if b1 == 0x3 {
            let post = if s1.v[b2 as int] == spec_nn(b3, b4) {
                CpuState { pc: (s1.pc + 2) as u16, ..s1 }
            } else {
                s1
            };
            (post, Ok(Message::NoMessage))
        } else if b1 == 0x4 {
            let post = if s1.v[b2 as int] != spec_nn(b3, b4) {
                CpuState { pc: (s1.pc + 2) as u16, ..s1 }
            } else {
                s1
            };
            (post, Ok(Message::NoMessage))
        } else if b1 == 0x5 {
            let post = if s1.v[b2 as int] == s1.v[b3 as int] {
                CpuState { pc: (s1.pc + 2) as u16, ..s1 }
            } else {
                s1
            };
            (post, Ok(Message::NoMessage))
        } else if b1 == 0x6 {
            (CpuState { v: s1.v.update(b2 as int, spec_nn(b3, b4)), ..s1 }, Ok(Message::NoMessage))
        } else if b1 == 0x7 {
            (
                CpuState {
                    v: s1.v.update(b2 as int, wrap_add(s1.v[b2 as int], spec_nn(b3, b4))),
                    ..s1
                },
                Ok(Message::NoMessage),
            )
        } else if b1 == 0x8 {
            (alu_spec(s1, b2 as int, b3 as int, b4), Ok(Message::NoMessage))
        } else if b1 == 0x9 {
            let post = if s1.v[b2 as int] != s1.v[b3 as int] {
                CpuState { pc: (s1.pc + 2) as u16, ..s1 }
            } else {
                s1
            };
            (post, Ok(Message::NoMessage))
        } else if b1 == 0xA {
            (CpuState { i: spec_nnn(b2, b3, b4), ..s1 }, Ok(Message::NoMessage))
        } else if b1 == 0xB {
            (
                CpuState { pc: (s1.v[0] + spec_nnn(b2, b3, b4)) as u16, ..s1 },
                Ok(Message::NoMessage),
            )
        } else if b1 == 0xC {
            (random_spec(s1, b2 as int, spec_nn(b3, b4), rnd), Ok(Message::NoMessage))
        } else if b1 == 0xD {
            (s1, Ok(Message::Draw(b2, b3, b4)))
        } else if b1 == 0xE {
            (s1, Ok(Message::Keys(b2, b3, b4)))
        } else {
            if byte2 == 0x0A {
                (CpuState { halted: true, ..s1 }, Ok(Message::GetKey(b2)))
            } else if others_fault(s1, b2 as int, byte2) {
                (s, Err(Fault::AddressOutOfRange))
            } else {
                (others_spec(s1, b2 as int, byte2), Ok(Message::NoMessage))
            }
        }
    }
}

/// Delivery of an awaited key: the key value lands in the chosen register
/// and the machine resumes.  Nothing else changes — in particular the program
/// counter already points past the await instruction.
pub open spec fn deliver_key_spec(s: CpuState, x: int, key: u8) -> CpuState
    recommends
        s.wf(),
        0 <= x < 16,
{
    CpuState { v: s.v.update(x, key), halted: false, ..s }
}

/// Whether the instruction the next step would execute is the random one
/// (`CXNN`) — the only instruction whose outcome is not a function of the
/// state alone.
pub open spec fn next_is_random(s: CpuState) -> bool {
    &&& !s.halted
    &&& s.pc + 1 < MEMORY_SIZE
    &&& s.memory[s.pc as int] / 16 == 0xC
}

/// Every instruction but the random one steps deterministically: the byte the
/// random source would have supplied does not matter.
pub proof fn lemma_step_ignores_rnd(s: CpuState, rnd1: u8, rnd2: u8)
    requires
        !next_is_random(s),
    ensures
        step_spec(s, rnd1) == step_spec(s, rnd2),
{
}

/// A vector of `n` zero bytes.
fn zero_bytes(n: usize) -> (r: Vec<u8>)
    ensures
        r@ == Seq::new(n as nat, |j: int| 0u8),
{
    let mut r: Vec<u8> = Vec::new();
    let mut k: usize = 0;
    while k < n
        invariant
            k <= n,
            r@ == Seq::new(k as nat, |j: int| 0u8),
        decreases n - k,
    {
        r.push(0u8);
        k = k + 1;
        proof {
            assert(r@ =~= Seq::new(k as nat, |j: int| 0u8));
        }
    }
    r
}

impl Cpu {
    /// A freshly booted machine with the given quirk configuration.
    pub fn new(hack: Hack) -> (r: Cpu)
        ensures
            r@ == boot_state(hack.shift_hack, hack.memory_hack),
            r@.wf(),
    {
        let r = Cpu {
            memory: zero_bytes(MEMORY_SIZE),
            v: zero_bytes(REGISTER_COUNT),
            i: 0,
            pc: PROGRAM_START,
            delay_timer: 0,
            sound_timer: 0,
            stack: Vec::new(),
            halted: false,
            hack,
        };
        proof {
            assert(r@ =~= boot_state(hack.shift_hack, hack.memory_hack));
        }
        r
    }

    /// One timer tick: each timer decrements by one, floored at zero.  No
    /// other state changes.  The driver calls this at a fixed cadence,
    /// independently of how many instruction steps occur in between.
    pub fn tick(&mut self)
        ensures
            final(self)@ == (CpuState {
                delay_timer: if old(self).delay_timer > 0 { (old(self).delay_timer - 1) as u8 } else { 0u8 },
                sound_timer: if old(self).sound_timer > 0 { (old(self).sound_timer - 1) as u8 } else { 0u8 },
                ..old(self)@
            }),
    {
        if self.delay_timer > 0 {
            self.delay_timer = self.delay_timer - 1;
        }
        if self.sound_timer > 0 {
            self.sound_timer = self.sound_timer - 1;
        }
    }

    /// One fetch-decode-execute step.  Reads the two instruction bytes at the
    /// program counter, advances it past them, and dispatches on the high
    /// nibble; the full semantics, instruction by instruction, are
    /// `step_spec`.  A halted machine does not move: the step is a no-op that
    /// owes the host nothing.  On a fault (stack underflow on return, or a
    /// memory access out of range) the state is left exactly as it was.
    pub fn step(&mut self) -> (r: Result<Message, Fault>)
        requires
            old(self)@.wf(),
        ensures
            final(self)@.wf(),
            exists|b: u8| #[trigger] step_spec(old(self)@, b) == (final(self)@, r),
    {
        if self.halted {
            proof {
                assert(step_spec(old(self)@, 0u8) == (
                    self@,
                    Ok::<Message, Fault>(Message::NoMessage),
                ));
            }
            return Ok(Message::NoMessage);
        }
        if self.pc as usize + 1 >= MEMORY_SIZE {
            proof {
                assert(step_spec(old(self)@, 0u8) == (
                    self@,
                    Err::<Message, Fault>(Fault::AddressOutOfRange),
                ));
            }
            return Err(Fault::AddressOutOfRange);
        }

        let byte1 = self.memory[self.pc as usize];
        let byte2 = self.memory[self.pc as usize + 1];
        self.pc = self.pc + 2;

        let bits1 = byte1 / 16;
        let bits2 = byte1 % 16;
        let bits3 = byte2 / 16;
        let bits4 = byte2 % 16;

        let r: Result<Message, Fault> = match bits1 {
            0x0 => match self.clear_and_return(bits2, bits3, bits4) {
                Ok(message) => Ok(message),
                Err(fault) => {
                    self.pc = self.pc - 2;
                    Err(fault)
                }
            },
            0x1 => {
                self.jump(bits2, bits3, bits4);
                Ok(Message::NoMessage)
            }
            0x2 => {
                self.call_subroutine(bits2, bits3, bits4);
                Ok(Message::NoMessage)
            }
            0x3 => {
                self.equal_to(bits2, bits3, bits4);
                Ok(Message::NoMessage)
            }
            0x4 => {
                self.not_equal_to(bits2, bits3, bits4);
                Ok(Message::NoMessage)
            }
            0x5 => {
                self.equal(bits2, bits3);
                Ok(Message::NoMessage)
            }
            0x6 => {
                self.variable(bits2, bits3, bits4);
                Ok(Message::NoMessage)
            }
            0x7 => {
                self.add_variable(bits2, bits3, bits4);
                Ok(Message::NoMessage)
            }
            0x8 => {
                self.operations(bits2, bits3, bits4);
                Ok(Message::NoMessage)
            }
            0x9 => {
                self.not_equal(bits2, bits3);
                Ok(Message::NoMessage)
            }
            0xA => {
                self.memory(bits2, bits3, bits4);
                Ok(Message::NoMessage)
            }
            0xB => {
                self.jump_plus(bits2, bits3, bits4);
                Ok(Message::NoMessage)
            }
            0xC => {
                self.random(bits2, bits3, bits4);
                Ok(Message::NoMessage)
            }
            0xD => Ok(Message::Draw(bits2, bits3, bits4)),
            0xE => Ok(Message::Keys(bits2, bits3, bits4)),
            _ => {
                if byte2 == 0x0A {
                    self.halted = true;
                    Ok(Message::GetKey(bits2))
                } else {
                    match self.others(bits2, bits3, bits4) {
                        Ok(()) => Ok(Message::NoMessage),
                        Err(fault) => {
                            self.pc = self.pc - 2;
                            Err(fault)
                        }
                    }
                }
            }
        };
        proof {
            let s0 = old(self)@;
            let s1 = CpuState { pc: (s0.pc + 2) as u16, ..s0 };
            if bits1 == 0xC {
                let b = choose|b: u8|
                    self@ == random_spec(s1, bits2 as int, spec_nn(bits3, bits4), b);
                assert(step_spec(s0, b) == (self@, r));
            } else {
                assert(step_spec(s0, 0u8) == (self@, r));
            }
        }
        r
    }

    /// Resume from the halted state: write the delivered key value into the
    /// register the await instruction chose, and run again.  The driver calls
    /// this in response to the `GetKey` effect; it is the only way out of the
    /// halted state.
    pub fn deliver_key(&mut self, register: u8, key: u8)
        requires
            old(self)@.wf(),
            old(self)@.halted,
            register < 16,
        ensures
            final(self)@ == deliver_key_spec(old(self)@, register as int, key),
    {
        self.v[register as usize] = key;
        self.halted = false;
    }

    /// The `0x0` instruction group: `00E0` requests a screen clear, `00EE`
    /// returns from a subroutine by popping the call stack.  A return on an
    /// empty stack is a fault that leaves the state untouched; any other low
    /// 12 bits are a no-op.
    pub fn clear_and_return(&mut self, bits2: u8, bits3: u8, bits4: u8) -> (r: Result<Message, Fault>)
        requires
            bits2 < 16,
            bits3 < 16,
            bits4 < 16,
        ensures
            spec_nnn(bits2, bits3, bits4) == 0x0E0 ==> {
                &&& final(self)@ == old(self)@
                &&& r == Ok::<Message, Fault>(Message::Clear)
            },
            spec_nnn(bits2, bits3, bits4) == 0x0EE && old(self)@.stack.len() == 0 ==> {
                &&& final(self)@ == old(self)@
                &&& r == Err::<Message, Fault>(Fault::StackUnderflow)
            },
            spec_nnn(bits2, bits3, bits4) == 0x0EE && old(self)@.stack.len() > 0 ==> {
                &&& final(self)@ == (CpuState {
                    pc: old(self)@.stack.last(),
                    stack: old(self)@.stack.drop_last(),
                    ..old(self)@
                })
                &&& r == Ok::<Message, Fault>(Message::NoMessage)
            },
            spec_nnn(bits2, bits3, bits4) != 0x0E0 && spec_nnn(bits2, bits3, bits4) != 0x0EE ==> {
                &&& final(self)@ == old(self)@
                &&& r == Ok::<Message, Fault>(Message::NoMessage)
            },
    {
        let three_last: u16 = (bits2 as u16) * 0x100 + (bits3 as u16) * 0x10 + bits4 as u16;
        if three_last == 0x0E0 {
            Ok(Message::Clear)
        } else if three_last == 0x0EE {
            match self.stack.pop() {
                Some(address) => {
                    self.pc = address;
                    Ok(Message::NoMessage)
                }
                None => Err(Fault::StackUnderflow),
            }
        } else {
            Ok(Message::NoMessage)
        }
    }

    /// `1NNN`: jump to address `NNN`.
    pub fn jump(&mut self, bits2: u8, bits3: u8, bits4: u8)
        requires
            bits2 < 16,
            bits3 < 16,
            bits4 < 16,
        ensures
            final(self)@ == (CpuState { pc: spec_nnn(bits2, bits3, bits4), ..old(self)@ }),
    {
        let three_last: u16 = (bits2 as u16) * 0x100 + (bits3 as u16) * 0x10 + bits4 as u16;
        self.pc = three_last;
    }

    /// `2NNN`: push the current program counter (the return address) and jump
    /// to the subroutine at `NNN`.
    pub fn call_subroutine(&mut self, bits2: u8, bits3: u8, bits4: u8)
        requires
            bits2 < 16,
            bits3 < 16,
            bits4 < 16,
        ensures
            final(self)@ == (CpuState {
                pc: spec_nnn(bits2, bits3, bits4),
                stack: old(self)@.stack.push(old(self).pc),
                ..old(self)@
            }),
    {
        let three_last: u16 = (bits2 as u16) * 0x100 + (bits3 as u16) * 0x10 + bits4 as u16;
        self.stack.push(self.pc);
        self.pc = three_last;
    }

    /// `3XNN`: skip the next instruction if register `X` equals `NN`.
    pub fn equal_to(&mut self, bits2: u8, bits3: u8, bits4: u8)
        requires
            old(self)@.wf(),
            bits2 < 16,
            bits3 < 16,
            bits4 < 16,
            old(self).pc + 2 <= u16::MAX,
        ensures
            final(self)@ == if old(self)@.v[bits2 as int] == spec_nn(bits3, bits4) {
                CpuState { pc: (old(self).pc + 2) as u16, ..old(self)@ }
            } else {
                old(self)@
            },
    {
        let two_last: u8 = bits3 * 0x10 + bits4;
        if self.v[bits2 as usize] == two_last {
            self.pc = self.pc + 2;
        }
    }

    /// `4XNN`: skip the next instruction if register `X` differs from `NN`.
    pub fn not_equal_to(&mut self, bits2: u8, bits3: u8, bits4: u8)
        requires
            old(self)@.wf(),
            bits2 < 16,
            bits3 < 16,
            bits4 < 16,
            old(self).pc + 2 <= u16::MAX,
        ensures
            final(self)@ == if old(self)@.v[bits2 as int] != spec_nn(bits3, bits4) {
                CpuState { pc: (old(self).pc + 2) as u16, ..old(self)@ }
            } else {
                old(self)@
            },
    {
        let two_last: u8 = bits3 * 0x10 + bits4;
        if self.v[bits2 as usize] != two_last {
            self.pc = self.pc + 2;
        }
    }

    /// `5XY0`: skip the next instruction if registers `X` and `Y` are equal.
    pub fn equal(&mut self, bits2: u8, bits3: u8)
        requires
            old(self)@.wf(),
            bits2 < 16,
            bits3 < 16,
            old(self).pc + 2 <= u16::MAX,
        ensures
            final(self)@ == if old(self)@.v[bits2 as int] == old(self)@.v[bits3 as int] {
                CpuState { pc: (old(self).pc + 2) as u16, ..old(self)@ }
            } else {
                old(self)@
            },
    {
        if self.v[bits2 as usize] == self.v[bits3 as usize] {
            self.pc = self.pc + 2;
        }
    }

    /// `6XNN`: set register `X` to `NN`.
    pub fn variable(&mut self, bits2: u8, bits3: u8, bits4: u8)
        requires
            old(self)@.wf(),
            bits2 < 16,
            bits3 < 16,
            bits4 < 16,
        ensures
            final(self)@ == (CpuState {
                v: old(self)@.v.update(bits2 as int, spec_nn(bits3, bits4)),
                ..old(self)@
            }),
    {
        let two_last: u8 = bits3 * 0x10 + bits4;
        self.v[bits2 as usize] = two_last;
    }

    /// `7XNN`: add `NN` to register `X`, wrapping; the flag register is not
    /// touched.
    pub fn add_variable(&mut self, bits2: u8, bits3: u8, bits4: u8)
        requires
            old(self)@.wf(),
            bits2 < 16,
            bits3 < 16,
            bits4 < 16,
        ensures
            final(self)@ == (CpuState {
                v: old(self)@.v.update(
                    bits2 as int,
                    wrap_add(old(self)@.v[bits2 as int], spec_nn(bits3, bits4)),
                ),
                ..old(self)@
            }),
    {
        let two_last: u8 = bits3 * 0x10 + bits4;
        let sum: u16 = self.v[bits2 as usize] as u16 + two_last as u16;
        self.v[bits2 as usize] = (sum % 256) as u8;
    }

    /// `8XY?`: the register-register ALU group.  The exact semantics of each
    /// operation, including the flag writes and both shift-quirk behaviours,
    /// are `alu_spec`.
    pub fn operations(&mut self, bits2: u8, bits3: u8, bits4: u8)
        requires
            old(self)@.wf(),
            bits2 < 16,
            bits3 < 16,
        ensures
            final(self)@ == alu_spec(old(self)@, bits2 as int, bits3 as int, bits4),
    {
        let x = bits2 as usize;
        let y = bits3 as usize;
        let vx = self.v[x];
        let vy = self.v[y];

        match bits4 {
            0x0 => self.v[x] = vy,
            0x1 => self.v[x] = vx | vy,
            0x2 => self.v[x] = vx & vy,
            0x3 => self.v[x] = vx ^ vy,
            0x4 => {
                let flag: u8 = if vx as u16 + vy as u16 > 255 { 1 } else { 0 };
                let sum: u16 = vx as u16 + vy as u16;
                self.v[x] = (sum % 256) as u8;
                self.v[15] = flag;
            }
            0x5 => {
                let flag: u8 = if vx >= vy { 1 } else { 0 };
                self.v[15] = flag;
                self.v[x] = if vx >= vy { vx - vy } else { (256 - vy as u16 + vx as u16) as u8 };
            }
            0x6 => {
                let src = if self.hack.shift_hack { vx } else { vy };
                self.v[15] = src & 1;
                self.v[x] = src >> 1;
            }
            0x7 => {
                let flag: u8 = if vy >= vx { 1 } else { 0 };
                self.v[15] = flag;
                self.v[x] = if vy >= vx { vy - vx } else { (256 - vx as u16 + vy as u16) as u8 };
            }
            0xE => {
                let src = if self.hack.shift_hack { vx } else { vy };
                self.v[15] = src >> 7;
                self.v[x] = src << 1;
            }
            _ => (),
        }
    }

    /// `9XY0`: skip the next instruction if registers `X` and `Y` differ.
    pub fn not_equal(&mut self, bits2: u8, bits3: u8)
        requires
            old(self)@.wf(),
            bits2 < 16,
            bits3 < 16,
            old(self).pc + 2 <= u16::MAX,
        ensures
            final(self)@ == if old(self)@.v[bits2 as int] != old(self)@.v[bits3 as int] {
                CpuState { pc: (old(self).pc + 2) as u16, ..old(self)@ }
            } else {
                old(self)@
            },
    {
        if self.v[bits2 as usize] != self.v[bits3 as usize] {
            self.pc = self.pc + 2;
        }
    }

    /// `FX??`: the timer and memory instruction group, every selector except
    /// the await-key one.  The exact semantics are `others_spec`; a selector
    /// that would address memory out of range faults without mutating
    /// anything.
    pub fn others(&mut self, bits2: u8, bits3: u8, bits4: u8) -> (r: Result<(), Fault>)
        requires
            old(self)@.wf(),
            bits2 < 16,
            bits3 < 16,
            bits4 < 16,
        ensures
            !others_fault(old(self)@, bits2 as int, spec_nn(bits3, bits4)) ==> {
                &&& r == Ok::<(), Fault>(())
                &&& final(self)@ == others_spec(old(self)@, bits2 as int, spec_nn(bits3, bits4))
            },
            others_fault(old(self)@, bits2 as int, spec_nn(bits3, bits4)) ==> {
                &&& r == Err::<(), Fault>(Fault::AddressOutOfRange)
                &&& final(self)@ == old(self)@
            },
    {
        let two_last: u8 = bits3 * 0x10 + bits4;
        let x = bits2 as usize;

        match two_last {
            0x07 => {
                self.v[x] = self.delay_timer;
                Ok(())
            }
            0x15 => {
                self.delay_timer = self.v[x];
                Ok(())
            }
            0x18 => {
                self.sound_timer = self.v[x];
                Ok(())
            }
            0x1E => {
                let sum: u32 = self.i as u32 + self.v[x] as u32;
                self.i = (sum % 0x10000) as u16;
                self.v[15] = if self.i >= MEMORY_SIZE as u16 { 1 } else { 0 };
                Ok(())
            }
            0x29 => {
                self.i = self.v[x] as u16 * 5;
                Ok(())
            }
            0x33 => {
                if self.i as usize + 2 >= MEMORY_SIZE {
                    return Err(Fault::AddressOutOfRange);
                }
                let vx = self.v[x];
                let base = self.i as usize;
                self.memory[base] = vx / 100;
                self.memory[base + 1] = vx % 100 / 10;
                self.memory[base + 2] = vx % 10;
                Ok(())
            }
            0x55 => {
                if self.i as usize + x >= MEMORY_SIZE {
                    return Err(Fault::AddressOutOfRange);
                }
                let mut j: usize = 0;
                proof {
                    assert(Seq::new(old(self)@.memory.len(), |a: int|
                        if old(self).i <= a < old(self).i + j {
                            old(self)@.v[a - old(self).i]
                        } else {
                            old(self)@.memory[a]
                        }) =~= old(self)@.memory);
                }
                while j < x + 1
                    invariant
                        old(self)@.wf(),
                        x < 16,
                        j <= x + 1,
                        old(self).i + x < MEMORY_SIZE,
                        self.i == old(self).i + j,
                        self@ == (CpuState {
                            memory: Seq::new(old(self)@.memory.len(), |a: int|
                                if old(self).i <= a < old(self).i + j {
                                    old(self)@.v[a - old(self).i]
                                } else {
                                    old(self)@.memory[a]
                                }),
                            i: (old(self).i + j) as u16,
                            ..old(self)@
                        }),
                    decreases x + 1 - j,
                {
                    self.memory[self.i as usize] = self.v[j];
                    self.i = self.i + 1;
                    j = j + 1;
                    proof {
                        assert(self@.memory =~= Seq::new(old(self)@.memory.len(), |a: int|
                            if old(self).i <= a < old(self).i + j {
                                old(self)@.v[a - old(self).i]
                            } else {
                                old(self)@.memory[a]
                            }));
                    }
                }
                if self.hack.memory_hack {
                    self.i = self.i - (bits2 as u16 + 1);
                }
                proof {
                    assert(self@.memory =~= others_spec(
                        old(self)@, bits2 as int, spec_nn(bits3, bits4),
                    ).memory);
                }
                Ok(())
            }
            0x65 => {
                if self.i as usize + x >= MEMORY_SIZE {
                    return Err(Fault::AddressOutOfRange);
                }
                let mut j: usize = 0;
                proof {
                    assert(Seq::new(old(self)@.v.len(), |a: int|
                        if 0 <= a < j {
                            old(self)@.memory[old(self).i + a]
                        } else {
                            old(self)@.v[a]
                        }) =~= old(self)@.v);
                }
                while j < x + 1
                    invariant
                        old(self)@.wf(),
                        x < 16,
                        j <= x + 1,
                        old(self).i + x < MEMORY_SIZE,
                        self.i == old(self).i + j,
                        self@ == (CpuState {
                            v: Seq::new(old(self)@.v.len(), |a: int|
                                if 0 <= a < j {
                                    old(self)@.memory[old(self).i + a]
                                } else {
                                    old(self)@.v[a]
                                }),
                            i: (old(self).i + j) as u16,
                            ..old(self)@
                        }),
                    decreases x + 1 - j,
                {
                    self.v[j] = self.memory[self.i as usize];
                    self.i = self.i + 1;
                    j = j + 1;
                    proof {
                        assert(self@.v =~= Seq::new(old(self)@.v.len(), |a: int|
                            if 0 <= a < j {
                                old(self)@.memory[old(self).i + a]
                            } else {
                                old(self)@.v[a]
                            }));
                    }
                }
                if self.hack.memory_hack {
                    self.i = self.i - (bits2 as u16 + 1);
                }
                proof {
                    assert(self@.v =~= others_spec(
                        old(self)@, bits2 as int, spec_nn(bits3, bits4),
                    ).v);
                }
                Ok(())
            }
            _ => Ok(()),
        }
    }

    /// `ANNN`: set the index register to address `NNN`.
    pub fn memory(&mut self, bits2: u8, bits3: u8, bits4: u8)
        requires
            bits2 < 16,
            bits3 < 16,
            bits4 < 16,
        ensures
            final(self)@ == (CpuState { i: spec_nnn(bits2, bits3, bits4), ..old(self)@ }),
    {
        let three_last: u16 = (bits2 as u16) * 0x100 + (bits3 as u16) * 0x10 + bits4 as u16;
        self.i = three_last;
    }

    /// `BNNN`: jump to address `NNN` plus register 0.
    pub fn jump_plus(&mut self, bits2: u8, bits3: u8, bits4: u8)
        requires
            old(self)@.wf(),
            bits2 < 16,
            bits3 < 16,
            bits4 < 16,
        ensures
            final(self)@ == (CpuState {
                pc: (old(self)@.v[0] + spec_nnn(bits2, bits3, bits4)) as u16,
                ..old(self)@
            }),
    {
        let three_last: u16 = (bits2 as u16) * 0x100 + (bits3 as u16) * 0x10 + bits4 as u16;
        self.pc = self.v[0] as u16 + three_last;
    }

    /// `CXNN`: set register `X` to a random byte masked with `NN`.  Which
    /// byte was drawn is not observable in the contract; every bit outside
    /// the mask is zero, and nothing else changes.
    pub fn random(&mut self, bits2: u8, bits3: u8, bits4: u8)
        requires
            old(self)@.wf(),
            bits2 < 16,
            bits3 < 16,
            bits4 < 16,
        ensures
            exists|b: u8| final(self)@ == #[trigger] random_spec(
                old(self)@, bits2 as int, spec_nn(bits3, bits4), b,
            ),
    {
        let two_last: u8 = bits3 * 0x10 + bits4;
        let drawn = random_byte();
        self.v[bits2 as usize] = drawn & two_last;
        proof {
            assert(self@ == random_spec(old(self)@, bits2 as int, spec_nn(bits3, bits4), drawn));
        }
    }
}

/// Relies on `rand::random`: a fresh uniformly distributed byte from the
/// thread-local generator.  Nothing is promised of a single draw.
#[verifier::external_body]
fn random_byte() -> u8 {
    rand::random::<u8>()
}

/// Await-key behaviour.  An `FX0A` instruction halts the machine (with the
/// program counter already past the instruction) and owes the host a
/// `GetKey` effect naming register `X`; while halted, every further step is a
/// no-op owing nothing; delivering a key writes it into register `X`, clears
/// the halted flag and touches nothing else, so execution resumes at the
/// instruction after the await.
pub proof fn lemma_await_key(s: CpuState, rnd1: u8, rnd2: u8, key: u8)
    requires
        s.wf(),
        !s.halted,
        s.pc + 1 < MEMORY_SIZE,
        s.memory[s.pc as int] / 16 == 0xF,
        s.memory[s.pc + 1] == 0x0A,
    ensures
        ({
            let x = (s.memory[s.pc as int] % 16) as u8;
            let halted_state = CpuState { pc: (s.pc + 2) as u16, halted: true, ..s };
            &&& step_spec(s, rnd1) == (halted_state, Ok::<Message, Fault>(Message::GetKey(x)))
            &&& step_spec(halted_state, rnd2) == (
                halted_state,
                Ok::<Message, Fault>(Message::NoMessage),
            )
            &&& deliver_key_spec(halted_state, x as int, key) == (CpuState {
                v: s.v.update(x as int, key),
                pc: (s.pc + 2) as u16,
                halted: false,
                ..s
            })
        }),
{
}

/// Subroutine call and return.  A `2NNN` call pushes the address of the
/// instruction immediately after itself; a return executed later, in any
/// state whose stack still has that frame on top, restores the program
/// counter to exactly that address and pops the frame.
pub proof fn lemma_call_return(s: CpuState, t: CpuState, rnd1: u8, rnd2: u8)
    requires
        s.wf(),
        !s.halted,
        s.pc + 1 < MEMORY_SIZE,
        s.memory[s.pc as int] / 16 == 0x2,
        t.wf(),
        !t.halted,
        t.pc + 1 < MEMORY_SIZE,
        t.memory[t.pc as int] == 0x00,
        t.memory[t.pc + 1] == 0xEE,
        t.stack == step_spec(s, rnd1).0.stack,
    ensures
        step_spec(s, rnd1).0.stack == s.stack.push((s.pc + 2) as u16),
        step_spec(t, rnd2).0.pc == s.pc + 2,
        step_spec(t, rnd2).0.stack == s.stack,
        step_spec(t, rnd2).1 == Ok::<Message, Fault>(Message::NoMessage),
{
    assert(step_spec(s, rnd1).0.stack == s.stack.push((s.pc + 2) as u16));
    assert(t.stack.len() > 0);
    assert(t.stack.last() == s.pc + 2);
    assert(t.stack.drop_last() =~= s.stack);
}

} // verus!
