use chip8::assembler::{assemble, parse_instructions, AsmErrorKind};
use chip8::disassembler::{decode, disassemble};

const EVERY_MNEMONIC: &str = "CLS\n\
RET\n\
JP 512\n\
CALL 516\n\
SEB 1, 255\n\
SNEB 2, 0\n\
SE 3, 4\n\
LDB 5, 16\n\
ADDB 6, 7\n\
LD 1, 2\n\
OR 3, 4\n\
AND 5, 6\n\
XOR 7, 8\n\
ADD 9, 10\n\
SUB 11, 12\n\
SHR 13, 14\n\
SUBN 15, 0\n\
SHL 1, 2\n\
SNE 3, 4\n\
LDI 4095\n\
JPP 0\n\
RND 5, 170\n\
DRW 1, 2, 5\n\
SKP 6\n\
SKNP 7\n\
GDT 8\n\
GK 9\n\
SDT 10\n\
SST 11\n\
ADDI 12\n\
FONT 13\n\
BCD 14\n\
DUMP 15\n\
LOAD 0";

#[test]
fn round_trip_covers_every_mnemonic() {
    let bytes = assemble(EVERY_MNEMONIC.to_string()).unwrap();
    assert_eq!(bytes.len(), 2 * 34);
    let text = disassemble(bytes.clone());
    assert_eq!(text, EVERY_MNEMONIC);
    let bytes_again = assemble(text).unwrap();
    assert_eq!(bytes_again, bytes);
}

#[test]
fn assemble_packs_operands_big_endian() {
    let bytes = assemble("JP 512".to_string()).unwrap();
    assert_eq!(bytes, vec![0x12, 0x00]);
    let bytes = assemble("SEB 1, 255".to_string()).unwrap();
    assert_eq!(bytes, vec![0x31, 0xFF]);
    let bytes = assemble("DRW 1, 2, 5".to_string()).unwrap();
    assert_eq!(bytes, vec![0xD1, 0x25]);
    let bytes = assemble("DUMP 15".to_string()).unwrap();
    assert_eq!(bytes, vec![0xFF, 0x55]);
    let bytes = assemble("LOAD 0".to_string()).unwrap();
    assert_eq!(bytes, vec![0xF0, 0x65]);
    let bytes = assemble("SKP 6".to_string()).unwrap();
    assert_eq!(bytes, vec![0xE6, 0x9E]);
}

#[test]
fn unknown_mnemonic_assembles_to_null_word() {
    let bytes = assemble("NOP".to_string()).unwrap();
    assert_eq!(bytes, vec![0x00, 0x00]);
    let bytes = assemble("CLS\nWHAT 1, 2\nRET".to_string()).unwrap();
    assert_eq!(bytes, vec![0x00, 0xE0, 0x00, 0x00, 0x00, 0xEE]);
}

#[test]
fn blank_lines_are_skipped() {
    let bytes = assemble("\nCLS\n\n\nRET\n".to_string()).unwrap();
    assert_eq!(bytes, vec![0x00, 0xE0, 0x00, 0xEE]);
}

#[test]
fn empty_source_assembles_to_nothing() {
    let bytes = assemble(String::new()).unwrap();
    assert!(bytes.is_empty());
}

#[test]
fn bad_operand_names_line_and_mnemonic() {
    let e = assemble("CLS\n\nJP zzz".to_string()).unwrap_err();
    assert_eq!(e.line, 3);
    assert_eq!(e.name, "JP");
    assert_eq!(e.kind, AsmErrorKind::BadOperand);
}

#[test]
fn operand_overflowing_16_bits_is_bad() {
    let e = assemble("JP 70000".to_string()).unwrap_err();
    assert_eq!(e.line, 1);
    assert_eq!(e.kind, AsmErrorKind::BadOperand);
}

#[test]
fn missing_operand_is_reported() {
    let e = assemble("SEB 1".to_string()).unwrap_err();
    assert_eq!(e.line, 1);
    assert_eq!(e.name, "SEB");
    assert_eq!(e.kind, AsmErrorKind::MissingOperand);
}

#[test]
fn operand_too_large_for_field_is_reported() {
    let e = assemble("JP 4096".to_string()).unwrap_err();
    assert_eq!(e.kind, AsmErrorKind::OperandOutOfRange);
    let e = assemble("SEB 16, 0".to_string()).unwrap_err();
    assert_eq!(e.kind, AsmErrorKind::OperandOutOfRange);
    let e = assemble("LDB 1, 256".to_string()).unwrap_err();
    assert_eq!(e.kind, AsmErrorKind::OperandOutOfRange);
}

#[test]
fn operand_spacing_is_forgiven() {
    let tight = assemble("SEB 1,255".to_string()).unwrap();
    let loose = assemble("SEB 1,   255".to_string()).unwrap();
    assert_eq!(tight, vec![0x31, 0xFF]);
    assert_eq!(loose, vec![0x31, 0xFF]);
}

#[test]
fn windows_line_endings_are_accepted() {
    let bytes = assemble("CLS\r\nJP 512\r\n".to_string()).unwrap();
    assert_eq!(bytes, vec![0x00, 0xE0, 0x12, 0x00]);
}

#[test]
fn parse_instructions_yields_names_and_args() {
    let insts = parse_instructions("CLS\nSEB 1, 255\nDRW 1, 2, 5".to_string()).unwrap();
    assert_eq!(insts.len(), 3);
    assert_eq!(insts[0].name, "CLS");
    assert!(insts[0].args.is_empty());
    assert_eq!(insts[1].name, "SEB");
    assert_eq!(insts[1].args, vec![1, 255]);
    assert_eq!(insts[2].name, "DRW");
    assert_eq!(insts[2].args, vec![1, 2, 5]);
}

#[test]
fn parse_instructions_reports_first_bad_line() {
    let e = parse_instructions("CLS\nLDB 1, ?\nJP 3".to_string()).unwrap_err();
    assert_eq!(e.line, 2);
    assert_eq!(e.name, "LDB");
    assert_eq!(e.kind, AsmErrorKind::BadOperand);
}

#[test]
fn decode_names_both_subtractions_apart() {
    assert_eq!(decode(0x81, 0x25), "SUB 1, 2");
    assert_eq!(decode(0x85, 0x27), "SUBN 5, 2");
}

#[test]
fn decode_of_unknown_word_is_empty() {
    assert_eq!(decode(0x00, 0x00), "");
    assert_eq!(decode(0x00, 0xE1), "");
    assert_eq!(decode(0x8F, 0xF8), "");
    assert_eq!(decode(0xE1, 0x00), "");
    assert_eq!(decode(0xF1, 0xFF), "");
}

#[test]
fn decode_masks_the_family_nibble_out_of_addresses() {
    assert_eq!(decode(0x12, 0x00), "JP 512");
    assert_eq!(decode(0xAF, 0xFF), "LDI 4095");
    assert_eq!(decode(0xB0, 0x00), "JPP 0");
}

#[test]
fn disassemble_joins_lines_and_ignores_odd_tail() {
    let text = disassemble(vec![0x00, 0xE0, 0x12, 0x00]);
    assert_eq!(text, "CLS\nJP 512");
    let text = disassemble(vec![0x00, 0xE0, 0x12]);
    assert_eq!(text, "CLS");
}

#[test]
fn disassemble_of_nothing_is_empty() {
    assert_eq!(disassemble(vec![]), "");
    assert_eq!(disassemble(vec![0x12]), "");
}
