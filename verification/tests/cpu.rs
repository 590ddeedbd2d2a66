use chip8::cpu::{Cpu, Fault, Hack, Message};

fn plain() -> Cpu {
    Cpu::new(Hack { shift_hack: false, memory_hack: false })
}

#[test]
fn boot_state_is_clean() {
    let cpu = plain();
    assert_eq!(cpu.memory.len(), 4096);
    assert!(cpu.memory.iter().all(|&b| b == 0));
    assert_eq!(cpu.v, vec![0u8; 16]);
    assert_eq!(cpu.pc, 512);
    assert_eq!(cpu.i, 0);
    assert_eq!(cpu.delay_timer, 0);
    assert_eq!(cpu.sound_timer, 0);
    assert!(cpu.stack.is_empty());
    assert!(!cpu.halted);
}

#[test]
fn carry_set_on_overflowing_add() {
    let mut cpu = plain();
    cpu.v[1] = 250;
    cpu.v[2] = 10;
    cpu.operations(1, 2, 4);
    assert_eq!(cpu.v[1], 4);
    assert_eq!(cpu.v[15], 1);
}

#[test]
fn carry_clear_on_small_add() {
    let mut cpu = plain();
    cpu.v[1] = 10;
    cpu.v[2] = 10;
    cpu.operations(1, 2, 4);
    assert_eq!(cpu.v[1], 20);
    assert_eq!(cpu.v[15], 0);
}

#[test]
fn borrow_clear_flag_on_underflowing_sub() {
    let mut cpu = plain();
    cpu.v[1] = 5;
    cpu.v[2] = 10;
    cpu.operations(1, 2, 5);
    assert_eq!(cpu.v[1], 251);
    assert_eq!(cpu.v[15], 0);
}

#[test]
fn borrow_set_flag_on_plain_sub() {
    let mut cpu = plain();
    cpu.v[1] = 10;
    cpu.v[2] = 5;
    cpu.operations(1, 2, 5);
    assert_eq!(cpu.v[1], 5);
    assert_eq!(cpu.v[15], 1);
}

#[test]
fn reverse_sub_uses_other_order() {
    let mut cpu = plain();
    cpu.v[1] = 3;
    cpu.v[2] = 10;
    cpu.operations(1, 2, 7);
    assert_eq!(cpu.v[1], 7);
    assert_eq!(cpu.v[15], 1);
}

#[test]
fn shift_right_reads_source_register_without_quirk() {
    let mut cpu = plain();
    cpu.v[1] = 0xFF;
    cpu.v[2] = 0b1000_0001;
    cpu.operations(1, 2, 6);
    assert_eq!(cpu.v[1], 0b0100_0000);
    assert_eq!(cpu.v[15], 1);
    assert_eq!(cpu.v[2], 0b1000_0001);
}

#[test]
fn shift_right_in_place_with_quirk() {
    let mut cpu = Cpu::new(Hack { shift_hack: true, memory_hack: false });
    cpu.v[1] = 0b0000_0110;
    cpu.v[2] = 0b1000_0001;
    cpu.operations(1, 2, 6);
    assert_eq!(cpu.v[1], 0b0000_0011);
    assert_eq!(cpu.v[15], 0);
}

#[test]
fn shift_left_keeps_high_bit_in_flag() {
    let mut cpu = plain();
    cpu.v[3] = 0;
    cpu.v[4] = 0b1100_0000;
    cpu.operations(3, 4, 0xE);
    assert_eq!(cpu.v[3], 0b1000_0000);
    assert_eq!(cpu.v[15], 1);
}

#[test]
fn tick_floors_timers_at_zero() {
    let mut cpu = plain();
    cpu.tick();
    assert_eq!(cpu.delay_timer, 0);
    assert_eq!(cpu.sound_timer, 0);
    cpu.delay_timer = 5;
    cpu.sound_timer = 1;
    cpu.tick();
    assert_eq!(cpu.delay_timer, 4);
    assert_eq!(cpu.sound_timer, 0);
    cpu.tick();
    assert_eq!(cpu.delay_timer, 3);
    assert_eq!(cpu.sound_timer, 0);
}

#[test]
fn bulk_dump_restores_index_with_quirk() {
    let mut cpu = Cpu::new(Hack { shift_hack: false, memory_hack: true });
    cpu.i = 0x300;
    cpu.v[0] = 9;
    cpu.v[1] = 8;
    cpu.v[2] = 7;
    cpu.v[3] = 6;
    let r = cpu.others(3, 5, 5);
    assert_eq!(r, Ok(()));
    assert_eq!(cpu.i, 0x300);
    assert_eq!(&cpu.memory[0x300..0x304], &[9, 8, 7, 6]);
}

#[test]
fn bulk_dump_advances_index_without_quirk() {
    let mut cpu = plain();
    cpu.i = 0x300;
    cpu.v[0] = 1;
    cpu.v[1] = 2;
    let r = cpu.others(1, 5, 5);
    assert_eq!(r, Ok(()));
    assert_eq!(cpu.i, 0x302);
    assert_eq!(&cpu.memory[0x300..0x302], &[1, 2]);
}

#[test]
fn bulk_load_fills_registers() {
    let mut cpu = plain();
    cpu.i = 0x280;
    cpu.memory[0x280] = 11;
    cpu.memory[0x281] = 22;
    cpu.memory[0x282] = 33;
    let r = cpu.others(2, 6, 5);
    assert_eq!(r, Ok(()));
    assert_eq!(&cpu.v[0..3], &[11, 22, 33]);
    assert_eq!(cpu.i, 0x283);
}

#[test]
fn bcd_expansion_is_exact() {
    let mut cpu = plain();
    cpu.i = 0x300;
    cpu.v[2] = 234;
    let r = cpu.others(2, 3, 3);
    assert_eq!(r, Ok(()));
    assert_eq!(&cpu.memory[0x300..0x303], &[2, 3, 4]);
}

#[test]
fn bcd_out_of_range_faults_without_mutation() {
    let mut cpu = plain();
    cpu.i = 4094;
    cpu.v[2] = 7;
    let r = cpu.others(2, 3, 3);
    assert_eq!(r, Err(Fault::AddressOutOfRange));
    assert_eq!(cpu.i, 4094);
    assert!(cpu.memory.iter().all(|&b| b == 0));
}

#[test]
fn index_add_sets_flag_past_memory_end() {
    let mut cpu = plain();
    cpu.i = 4000;
    cpu.v[1] = 200;
    let r = cpu.others(1, 1, 0xE);
    assert_eq!(r, Ok(()));
    assert_eq!(cpu.i, 4200);
    assert_eq!(cpu.v[15], 1);
    let mut cpu = plain();
    cpu.i = 10;
    cpu.v[1] = 5;
    let r = cpu.others(1, 1, 0xE);
    assert_eq!(r, Ok(()));
    assert_eq!(cpu.i, 15);
    assert_eq!(cpu.v[15], 0);
}

#[test]
fn font_pointer_is_five_bytes_per_glyph() {
    let mut cpu = plain();
    cpu.v[4] = 0xA;
    let r = cpu.others(4, 2, 9);
    assert_eq!(r, Ok(()));
    assert_eq!(cpu.i, 50);
}

#[test]
fn step_executes_jump() {
    let mut cpu = plain();
    cpu.memory[512] = 0x13;
    cpu.memory[513] = 0x45;
    let r = cpu.step();
    assert_eq!(r, Ok(Message::NoMessage));
    assert_eq!(cpu.pc, 0x345);
}

#[test]
fn step_skip_when_register_equals_byte() {
    let mut cpu = plain();
    cpu.v[1] = 0x42;
    cpu.memory[512] = 0x31;
    cpu.memory[513] = 0x42;
    cpu.step().unwrap();
    assert_eq!(cpu.pc, 516);
    let mut cpu = plain();
    cpu.v[1] = 0;
    cpu.memory[512] = 0x31;
    cpu.memory[513] = 0x42;
    cpu.step().unwrap();
    assert_eq!(cpu.pc, 514);
}

#[test]
fn call_then_return_restores_pc_after_call() {
    let mut cpu = plain();
    cpu.memory[512] = 0x22;
    cpu.memory[513] = 0x08;
    cpu.memory[520] = 0x00;
    cpu.memory[521] = 0xEE;
    cpu.step().unwrap();
    assert_eq!(cpu.pc, 520);
    assert_eq!(cpu.stack, vec![514]);
    cpu.step().unwrap();
    assert_eq!(cpu.pc, 514);
    assert!(cpu.stack.is_empty());
}

#[test]
fn return_on_empty_stack_is_a_fault() {
    let mut cpu = plain();
    cpu.memory[512] = 0x00;
    cpu.memory[513] = 0xEE;
    let r = cpu.step();
    assert_eq!(r, Err(Fault::StackUnderflow));
    assert_eq!(cpu.pc, 512);
}

#[test]
fn await_key_halts_until_delivery() {
    let mut cpu = plain();
    cpu.memory[512] = 0xF3;
    cpu.memory[513] = 0x0A;
    cpu.memory[514] = 0x61;
    cpu.memory[515] = 0x07;
    let r = cpu.step();
    assert_eq!(r, Ok(Message::GetKey(3)));
    assert!(cpu.halted);
    assert_eq!(cpu.pc, 514);

    let r = cpu.step();
    assert_eq!(r, Ok(Message::NoMessage));
    assert!(cpu.halted);
    assert_eq!(cpu.pc, 514);

    cpu.deliver_key(3, 0xC);
    assert!(!cpu.halted);
    assert_eq!(cpu.v[3], 0xC);
    assert_eq!(cpu.pc, 514);

    cpu.step().unwrap();
    assert_eq!(cpu.v[1], 7);
    assert_eq!(cpu.pc, 516);
}

#[test]
fn random_respects_mask() {
    let mut cpu = plain();
    cpu.v[1] = 0xFF;
    cpu.random(1, 0, 0);
    assert_eq!(cpu.v[1], 0);
    for _ in 0..20 {
        cpu.random(1, 0, 0xF);
        assert!(cpu.v[1] <= 0x0F);
    }
}

#[test]
fn step_fetch_past_memory_end_is_a_fault() {
    let mut cpu = plain();
    cpu.pc = 4095;
    let r = cpu.step();
    assert_eq!(r, Err(Fault::AddressOutOfRange));
    assert_eq!(cpu.pc, 4095);
}

#[test]
fn timer_instructions_move_values() {
    let mut cpu = plain();
    cpu.delay_timer = 42;
    cpu.others(5, 0, 7).unwrap();
    assert_eq!(cpu.v[5], 42);
    cpu.v[6] = 9;
    cpu.others(6, 1, 5).unwrap();
    assert_eq!(cpu.delay_timer, 9);
    cpu.others(6, 1, 8).unwrap();
    assert_eq!(cpu.sound_timer, 9);
}
