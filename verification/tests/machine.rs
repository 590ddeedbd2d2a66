use chip8::chip8::Chip8;
use chip8::cpu::{Fault, Hack, Message};
use chip8::data::fontset;
use chip8::hardware::Hardware;

fn plain_hack() -> Hack {
    Hack { shift_hack: false, memory_hack: false }
}

#[test]
fn fontset_has_sixteen_glyphs() {
    let font = fontset();
    assert_eq!(font.len(), 80);
    assert_eq!(&font[0..5], &[0xF0, 0x90, 0x90, 0x90, 0xF0]);
    assert_eq!(&font[75..80], &[0xF0, 0x80, 0xF0, 0x80, 0x80]);
}

#[test]
fn built_in_program_is_ten_instructions() {
    let rom = chip8::data::test();
    assert_eq!(rom.len(), 20);
    assert_eq!(&rom[0..2], &[0x00, 0xE0]);
    assert_eq!(&rom[18..20], &[0x12, 0x00]);
}

#[test]
fn construction_loads_font_and_program() {
    let rom = chip8::data::test();
    let machine = Chip8::new(&rom, plain_hack());
    assert_eq!(&machine.cpu.memory[0..5], &[0xF0, 0x90, 0x90, 0x90, 0xF0]);
    assert_eq!(&machine.cpu.memory[512..532], &rom[..]);
    assert!(machine.cpu.memory[532..].iter().all(|&b| b == 0));
    assert!(machine.cpu.memory[80..512].iter().all(|&b| b == 0));
    assert_eq!(machine.cpu.pc, 512);
    assert!(machine.hardware.gfx.iter().all(|&p| p == 0));
    assert!(machine.hardware.keys.iter().all(|&k| !k));
}

#[test]
fn draw_xors_a_glyph_onto_the_screen() {
    let mut machine = Chip8::new(&vec![], plain_hack());
    machine.cpu.i = 0;
    machine.cpu.v[0] = 2;
    machine.cpu.v[1] = 3;
    let r = machine.draw(0, 1, 5);
    assert_eq!(r, Ok(()));
    // glyph 0 starts with row 0xF0: four lit pixels from (2, 3)
    for gx in 0..8 {
        let lit = gx < 4;
        assert_eq!(machine.hardware.gfx[3 * 64 + 2 + gx] == 1, lit);
    }
    assert_eq!(machine.cpu.v[15], 0);
    // drawing the same glyph again flips everything back off
    let r = machine.draw(0, 1, 5);
    assert_eq!(r, Ok(()));
    assert_eq!(machine.cpu.v[15], 1);
    assert!(machine.hardware.gfx.iter().all(|&p| p == 0));
}

#[test]
fn draw_clips_at_the_screen_edge() {
    let mut machine = Chip8::new(&vec![], plain_hack());
    machine.cpu.i = 0;
    machine.cpu.v[0] = 62;
    machine.cpu.v[1] = 31;
    machine.draw(0, 1, 5).unwrap();
    // only the last row of the screen, columns 62 and 63, can be lit
    assert_eq!(machine.hardware.gfx[31 * 64 + 62], 1);
    assert_eq!(machine.hardware.gfx[31 * 64 + 63], 1);
    let lit: usize = machine.hardware.gfx.iter().filter(|&&p| p == 1).count();
    assert_eq!(lit, 2);
}

#[test]
fn draw_row_past_memory_end_is_a_fault() {
    let mut machine = Chip8::new(&vec![], plain_hack());
    machine.cpu.i = 4095;
    let r = machine.draw(0, 1, 2);
    assert_eq!(r, Err(Fault::AddressOutOfRange));
    assert!(machine.hardware.gfx.iter().all(|&p| p == 0));
}

#[test]
fn step_applies_clear_to_the_screen() {
    let mut machine = Chip8::new(&vec![0x00, 0xE0], plain_hack());
    machine.hardware.gfx[100] = 1;
    let r = machine.step();
    assert_eq!(r, Ok(Message::NoMessage));
    assert!(machine.hardware.gfx.iter().all(|&p| p == 0));
    assert_eq!(machine.cpu.pc, 514);
}

#[test]
fn step_reports_a_completed_draw() {
    // point the index at glyph 0 and draw it at (V0, V1) = (0, 0)
    let mut machine = Chip8::new(&vec![0xD0, 0x15], plain_hack());
    let r = machine.step();
    assert_eq!(r, Ok(Message::Draw(0, 1, 5)));
    assert_eq!(machine.hardware.gfx[0], 1);
}

#[test]
fn step_skips_on_pressed_key() {
    let mut machine = Chip8::new(&vec![0xE2, 0x9E], plain_hack());
    machine.hardware.keys[2] = true;
    let r = machine.step();
    assert_eq!(r, Ok(Message::NoMessage));
    assert_eq!(machine.cpu.pc, 516);

    let mut machine = Chip8::new(&vec![0xE2, 0x9E], plain_hack());
    machine.step().unwrap();
    assert_eq!(machine.cpu.pc, 514);
}

#[test]
fn step_skips_on_released_key() {
    let mut machine = Chip8::new(&vec![0xE2, 0xA1], plain_hack());
    machine.step().unwrap();
    assert_eq!(machine.cpu.pc, 516);

    let mut machine = Chip8::new(&vec![0xE2, 0xA1], plain_hack());
    machine.hardware.keys[2] = true;
    machine.step().unwrap();
    assert_eq!(machine.cpu.pc, 514);
}

#[test]
fn step_passes_await_key_through() {
    let mut machine = Chip8::new(&vec![0xF7, 0x0A], plain_hack());
    let r = machine.step();
    assert_eq!(r, Ok(Message::GetKey(7)));
    assert!(machine.cpu.halted);
    let r = machine.step();
    assert_eq!(r, Ok(Message::NoMessage));
    machine.cpu.deliver_key(7, 0xB);
    assert!(!machine.cpu.halted);
    assert_eq!(machine.cpu.v[7], 0xB);
}

#[test]
fn hardware_tracks_presses_and_releases() {
    let mut hw = Hardware::new();
    assert_eq!(hw.keys.len(), 17);
    assert_eq!(hw.gfx.len(), 2048);
    hw.press(5);
    assert!(hw.keys[5]);
    hw.press(16);
    assert!(hw.keys[16]);
    hw.release(5);
    assert!(!hw.keys[5]);
}

#[test]
fn hardware_clear_darkens_everything() {
    let mut hw = Hardware::new();
    hw.gfx[0] = 1;
    hw.gfx[2047] = 1;
    hw.press(3);
    hw.clear();
    assert!(hw.gfx.iter().all(|&p| p == 0));
    assert!(hw.keys[3]);
}

#[test]
fn built_in_program_draws_a_glyph() {
    let rom = chip8::data::test();
    let mut machine = Chip8::new(&rom, plain_hack());
    // clear, two register loads, two key conditionals (no key pressed, so
    // both skip), glyph lookup, then the draw
    for _ in 0..6 {
        machine.step().unwrap();
    }
    let r = machine.step().unwrap();
    assert_eq!(r, Message::Draw(0, 1, 5));
    // V3 stayed 0, so the glyph for 0 is drawn at (2, 2)
    assert_eq!(machine.cpu.i, 0);
    assert_eq!(machine.hardware.gfx[2 * 64 + 2], 1);
    // the jump loops back to the start
    machine.step().unwrap();
    assert_eq!(machine.cpu.pc, 512);
}
