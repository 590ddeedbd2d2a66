//! A small 8-bit virtual machine: an instruction interpreter over a
//! register/memory model, and a pair of codecs that translate between a
//! mnemonic text form and the binary instruction format the interpreter
//! executes.
//!
//! The interpreter ([`cpu::Cpu`], assembled with its hardware in
//! [`chip8::Chip8`]) advances one instruction per step and hands the caller a
//! [`cpu::Message`] naming whatever host effect the step owes — a screen
//! clear, a sprite draw, a key query, or a blocking key wait.  The codecs
//! ([`assembler::assemble`] and [`disassembler::disassemble`]) agree
//! bit-for-bit on operand placement: every well-formed instruction round
//! trips, which [`disassembler::lemma_program_round_trip`] states and proves.

pub mod assembler;
pub mod chip8;
pub mod cpu;
pub mod data;
pub mod disassembler;
pub mod hardware;
pub mod opcode;
pub mod text;
