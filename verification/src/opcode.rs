//! The binary instruction format shared by the two codecs: the mnemonic
//! table, the packing of operands into 16-bit words, the normalized text
//! rendering of an instruction, and the grammar a source line must follow.

use vstd::prelude::*;
use crate::text::{
    dec_digits, dec_value, find_char, found_at, is_digit, is_space, lemma_dec_digits_value,
    lemma_find_char_is, lemma_split_none, lemma_split_prefix, lemma_trim_back_at,
    lemma_trim_front_at, parses_u16, split_on, trim_spec,
};

verus! {

/// Mnemonics taking no operand.
pub open spec fn is_noarg_mnemonic(name: Seq<char>) -> bool {
    name == "CLS"@ || name == "RET"@
}

/// Mnemonics taking one 12-bit address operand.
pub open spec fn is_nnn_mnemonic(name: Seq<char>) -> bool {
    name == "JP"@ || name == "CALL"@ || name == "LDI"@ || name == "JPP"@
}

/// Mnemonics taking one register operand.
pub open spec fn is_x_mnemonic(name: Seq<char>) -> bool {
    ||| name == "SKP"@
    ||| name == "SKNP"@
    ||| name == "GDT"@
    ||| name == "GK"@
    ||| name == "SDT"@
    ||| name == "SST"@
    ||| name == "ADDI"@
    ||| name == "FONT"@
    ||| name == "BCD"@
    ||| name == "DUMP"@
    ||| name == "LOAD"@
}

/// Mnemonics taking a register and an 8-bit immediate.
pub open spec fn is_xnn_mnemonic(name: Seq<char>) -> bool {
    name == "SEB"@ || name == "SNEB"@ || name == "LDB"@ || name == "ADDB"@ || name == "RND"@
}

/// Mnemonics taking two register operands.
pub open spec fn is_xy_mnemonic(name: Seq<char>) -> bool {
    ||| name == "SE"@
    ||| name == "SNE"@
    ||| name == "LD"@
    ||| name == "OR"@
    ||| name == "AND"@
    ||| name == "XOR"@
    ||| name == "ADD"@
    ||| name == "SUB"@
    ||| name == "SHR"@
    ||| name == "SUBN"@
    ||| name == "SHL"@
}

/// Whether the name is in the mnemonic table.
pub open spec fn is_mnemonic(name: Seq<char>) -> bool {
    ||| is_noarg_mnemonic(name)
    ||| is_nnn_mnemonic(name)
    ||| is_x_mnemonic(name)
    ||| is_xnn_mnemonic(name)
    ||| is_xy_mnemonic(name)
    ||| name == "DRW"@
}

/// How many operands the mnemonic takes.
pub open spec fn arity(name: Seq<char>) -> int {
    if is_noarg_mnemonic(name) {
        0
    } else if is_nnn_mnemonic(name) || is_x_mnemonic(name) {
        1
    } else if is_xnn_mnemonic(name) || is_xy_mnemonic(name) {
        2
    } else {
        3
    }
}

/// Whether each operand fits the field it is packed into: register indices
/// and sprite heights in a nibble, immediates in a byte, addresses in 12
/// bits.
pub open spec fn args_ok(name: Seq<char>, args: Seq<u16>) -> bool {
    if is_noarg_mnemonic(name) {
        true
    } else if is_nnn_mnemonic(name) {
        args[0] < 0x1000
    } else if is_x_mnemonic(name) {
        args[0] < 16
    } else if is_xnn_mnemonic(name) {
        args[0] < 16 && args[1] < 0x100
    } else if is_xy_mnemonic(name) {
        args[0] < 16 && args[1] < 16
    } else {
        args[0] < 16 && args[1] < 16 && args[2] < 16
    }
}

/// An instruction in normal form: a known mnemonic with exactly its operands,
/// each in range.
pub open spec fn valid_instruction(name: Seq<char>, args: Seq<u16>) -> bool {
    &&& is_mnemonic(name)
    &&& args.len() == arity(name)
    &&& args_ok(name, args)
}

/// The 16-bit word a known instruction encodes to; the null word for an
/// unknown mnemonic (the assembler's deliberate permissiveness).
pub open spec fn encode_word_spec(name: Seq<char>, args: Seq<u16>) -> u16 {
    if name == "CLS"@ {
        0x00E0
    } else if name == "RET"@ {
        0x00EE
    } else if name == "JP"@ {
        (0x1000 + args[0]) as u16
    } else if name == "CALL"@ {
        (0x2000 + args[0]) as u16
    } else if name == "SEB"@ {
        (0x3000 + args[0] * 0x100 + args[1]) as u16
    } else if name == "SNEB"@ {
        (0x4000 + args[0] * 0x100 + args[1]) as u16
    } else if name == "SE"@ {
        (0x5000 + args[0] * 0x100 + args[1] * 0x10) as u16
    } else if name == "LDB"@ {
        (0x6000 + args[0] * 0x100 + args[1]) as u16
    } else if name == "ADDB"@ {
        (0x7000 + args[0] * 0x100 + args[1]) as u16
    } else if name == "LD"@ {
        (0x8000 + args[0] * 0x100 + args[1] * 0x10) as u16
    } else if name == "OR"@ {
        (0x8001 + args[0] * 0x100 + args[1] * 0x10) as u16
    } else if name == "AND"@ {
        (0x8002 + args[0] * 0x100 + args[1] * 0x10) as u16
    } else if name == "XOR"@ {
        (0x8003 + args[0] * 0x100 + args[1] * 0x10) as u16
    } else if name == "ADD"@ {
        (0x8004 + args[0] * 0x100 + args[1] * 0x10) as u16
    } else if name == "SUB"@ {
        (0x8005 + args[0] * 0x100 + args[1] * 0x10) as u16
    } else if name == "SHR"@ {
        (0x8006 + args[0] * 0x100 + args[1] * 0x10) as u16
    } else if name == "SUBN"@ {
        (0x8007 + args[0] * 0x100 + args[1] * 0x10) as u16
    } else if name == "SHL"@ {
        (0x800E + args[0] * 0x100 + args[1] * 0x10) as u16
    } else if name == "SNE"@ {
        (0x9000 + args[0] * 0x100 + args[1] * 0x10) as u16
    } else if name == "LDI"@ {
        (0xA000 + args[0]) as u16
    } else if name == "JPP"@ {
        (0xB000 + args[0]) as u16
    } else if name == "RND"@ {
        (0xC000 + args[0] * 0x100 + args[1]) as u16
    } else if name == "DRW"@ {
        (0xD000 + args[0] * 0x100 + args[1] * 0x10 + args[2]) as u16
    } else if name == "SKP"@ {
        (0xE09E + args[0] * 0x100) as u16
    } else if name == "SKNP"@ {
        (0xE0A1 + args[0] * 0x100) as u16
    } else if name == "GDT"@ {
        (0xF007 + args[0] * 0x100) as u16
    } else if name == "GK"@ {
        (0xF00A + args[0] * 0x100) as u16
    } else if name == "SDT"@ {
        (0xF015 + args[0] * 0x100) as u16
    } else if name == "SST"@ {
        (0xF018 + args[0] * 0x100) as u16
    } else if name == "ADDI"@ {
        (0xF01E + args[0] * 0x100) as u16
    } else if name == "FONT"@ {
        (0xF029 + args[0] * 0x100) as u16
    } else if name == "BCD"@ {
        (0xF033 + args[0] * 0x100) as u16
    } else if name == "DUMP"@ {
        (0xF055 + args[0] * 0x100) as u16
    } else if name == "LOAD"@ {
        (0xF065 + args[0] * 0x100) as u16
    } else {
        0x0000
    }
}

/// The instruction a 16-bit word decodes to, or nothing for a word outside
/// the format.
pub open spec fn decode_inst_spec(w: u16) -> Option<(Seq<char>, Seq<u16>)> {
    let f1 = w / 0x1000;
    let x = (w / 0x100 % 16) as u16;
    let y = (w / 16 % 16) as u16;
    let f4 = (w % 16) as u16;
    let nn = (w % 0x100) as u16;
    let nnn = (w % 0x1000) as u16;
    if f1 == 0x0 {
        if nn == 0xE0 {
            Some(("CLS"@, seq![]))
        } else if nn == 0xEE {
            Some(("RET"@, seq![]))
        } else {
            None
        }
    } else if f1 == 0x1 {
        Some(("JP"@, seq![nnn]))
    } else if f1 == 0x2 {
        Some(("CALL"@, seq![nnn]))
    } else if f1 == 0x3 {
        Some(("SEB"@, seq![x, nn]))
    } else if f1 == 0x4 {
        Some(("SNEB"@, seq![x, nn]))
    } else if f1 == 0x5 {
        Some(("SE"@, seq![x, y]))
    } else if f1 == 0x6 {
        Some(("LDB"@, seq![x, nn]))
    } else if f1 == 0x7 {
        Some(("ADDB"@, seq![x, nn]))
    } else if f1 == 0x8 {
        if f4 == 0x0 {
            Some(("LD"@, seq![x, y]))
        } else if f4 == 0x1 {
            Some(("OR"@, seq![x, y]))
        } else if f4 == 0x2 {
            Some(("AND"@, seq![x, y]))
        } else if f4 == 0x3 {
            Some(("XOR"@, seq![x, y]))
        } else if f4 == 0x4 {
            Some(("ADD"@, seq![x, y]))
        } else if f4 == 0x5 {
            Some(("SUB"@, seq![x, y]))
        } else if f4 == 0x6 {
            Some(("SHR"@, seq![x, y]))
        } else if f4 == 0x7 {
            Some(("SUBN"@, seq![x, y]))
        } else if f4 == 0xE {
            Some(("SHL"@, seq![x, y]))
        } else {
            None
        }
    } else if f1 == 0x9 {
        Some(("SNE"@, seq![x, y]))
    } else if f1 == 0xA {
        Some(("LDI"@, seq![nnn]))
    } else if f1 == 0xB {
        Some(("JPP"@, seq![nnn]))
    } else if f1 == 0xC {
        Some(("RND"@, seq![x, nn]))
    } else if f1 == 0xD {
        Some(("DRW"@, seq![x, y, f4]))
    } else if f1 == 0xE {
        if nn == 0x9E {
            Some(("SKP"@, seq![x]))
        } else if nn == 0xA1 {
            Some(("SKNP"@, seq![x]))
        } else {
            None
        }
    } else {
        if nn == 0x07 {
            Some(("GDT"@, seq![x]))
        } else if nn == 0x0A {
            Some(("GK"@, seq![x]))
        } else if nn == 0x15 {
            Some(("SDT"@, seq![x]))
        } else if nn == 0x18 {
            Some(("SST"@, seq![x]))
        } else if nn == 0x1E {
            Some(("ADDI"@, seq![x]))
        } else if nn == 0x29 {
            Some(("FONT"@, seq![x]))
        } else if nn == 0x33 {
            Some(("BCD"@, seq![x]))
        } else if nn == 0x55 {
            Some(("DUMP"@, seq![x]))
        } else if nn == 0x65 {
            Some(("LOAD"@, seq![x]))
        } else {
            None
        }
    }
}

/// The operand list as text: decimal values joined by a comma and a space.
pub open spec fn args_text(args: Seq<u16>) -> Seq<char>
    decreases args.len(),
{
    if args.len() == 0 {
        Seq::empty()
    } else if args.len() == 1 {
        dec_digits(args[0] as nat)
    } else {
        dec_digits(args[0] as nat) + seq![',', ' '] + args_text(args.drop_first())
    }
}

/// The normalized text form of an instruction: the mnemonic, then, if it has
/// operands, one space and the operand list.
pub open spec fn render_line_spec(name: Seq<char>, args: Seq<u16>) -> Seq<char> {
    if args.len() == 0 {
        name
    } else {
        name + seq![' '] + args_text(args)
    }
}

/// How a source line is read: everything before the first space is the
/// mnemonic; the remainder splits on commas into operands, each trimmed and
/// parsed as a decimal 16-bit number.  A line with no space is a bare
/// mnemonic.  Nothing if some operand fails to parse.
pub open spec fn parse_line_spec(line: Seq<char>) -> Option<(Seq<char>, Seq<u16>)> {
    let sp = find_char(line, ' ');
    if sp == -1 {
        Some((line, seq![]))
    } else {
        let name = line.take(sp);
        let rest = line.subrange(sp, line.len() as int);
        let parts = split_on(rest, ',').map_values(|p: Seq<char>| trim_spec(p));
        if forall|i: int| 0 <= i < parts.len() ==> parses_u16(#[trigger] parts[i]) {
            Some((name, parts.map_values(|p: Seq<char>| dec_value(p) as u16)))
        } else {
            None
        }
    }
}

/// The mnemonic part of a line: everything before the first space.
pub open spec fn name_part_spec(line: Seq<char>) -> Seq<char> {
    let sp = find_char(line, ' ');
    if sp == -1 {
        line
    } else {
        line.take(sp)
    }
}

/// Unpacking a word built from an address operand.
proof fn lemma_word_nnn(f1: int, nnn: int)
    requires
        0 <= f1 < 16,
        0 <= nnn < 0x1000,
    ensures
        ({
            let w = f1 * 0x1000 + nnn;
            &&& w / 0x1000 == f1
            &&& w % 0x1000 == nnn
            &&& 0 <= w < 0x10000
        }),
{
    let w = f1 * 0x1000 + nnn;
    vstd::arithmetic::div_mod::lemma_fundamental_div_mod_converse_div(w, 0x1000, f1, nnn);
    vstd::arithmetic::div_mod::lemma_fundamental_div_mod_converse_mod(w, 0x1000, f1, nnn);
}

/// Unpacking a word built from a register operand and a byte operand.
proof fn lemma_word_xnn(f1: int, x: int, nn: int)
    requires
        0 <= f1 < 16,
        0 <= x < 16,
        0 <= nn < 0x100,
    ensures
        ({
            let w = f1 * 0x1000 + x * 0x100 + nn;
            &&& w / 0x1000 == f1
            &&& w / 0x100 % 16 == x
            &&& w % 0x100 == nn
            &&& 0 <= w < 0x10000
        }),
{
    let w = f1 * 0x1000 + x * 0x100 + nn;
    vstd::arithmetic::div_mod::lemma_fundamental_div_mod_converse_div(
        w,
        0x1000,
        f1,
        x * 0x100 + nn,
    );
    vstd::arithmetic::div_mod::lemma_fundamental_div_mod_converse_div(w, 0x100, f1 * 16 + x, nn);
    vstd::arithmetic::div_mod::lemma_fundamental_div_mod_converse_mod(w, 0x100, f1 * 16 + x, nn);
    vstd::arithmetic::div_mod::lemma_fundamental_div_mod_converse_mod(f1 * 16 + x, 16, f1, x);
}

/// Unpacking a word built from four nibbles.
pub proof fn lemma_word_parts(f1: int, x: int, y: int, k: int)
    requires
        0 <= f1 < 16,
        0 <= x < 16,
        0 <= y < 16,
        0 <= k < 16,
    ensures
        ({
            let w = f1 * 0x1000 + x * 0x100 + y * 0x10 + k;
            &&& w / 0x1000 == f1
            &&& w / 0x100 % 16 == x
            &&& w / 16 % 16 == y
            &&& w % 16 == k
            &&& w % 0x100 == y * 0x10 + k
            &&& w % 0x1000 == x * 0x100 + y * 0x10 + k
            &&& 0 <= w < 0x10000
        }),
{
    let w = f1 * 0x1000 + x * 0x100 + y * 0x10 + k;
    lemma_word_xnn(f1, x, y * 0x10 + k);
    vstd::arithmetic::div_mod::lemma_fundamental_div_mod_converse_mod(
        w,
        0x1000,
        f1,
        x * 0x100 + y * 0x10 + k,
    );
    vstd::arithmetic::div_mod::lemma_fundamental_div_mod_converse_div(
        w,
        16,
        f1 * 0x100 + x * 16 + y,
        k,
    );
    vstd::arithmetic::div_mod::lemma_fundamental_div_mod_converse_mod(w, 16, f1 * 0x100 + x * 16 + y, k);
    vstd::arithmetic::div_mod::lemma_fundamental_div_mod_converse_mod(
        f1 * 0x100 + x * 16 + y,
        16,
        f1 * 16 + x,
        y,
    );
}

/// Brings the views of all mnemonic literals into scope.
pub proof fn reveal_mnemonics()
    ensures
        "CLS"@ =~= seq!['C', 'L', 'S'],
        "RET"@ =~= seq!['R', 'E', 'T'],
        "JP"@ =~= seq!['J', 'P'],
        "CALL"@ =~= seq!['C', 'A', 'L', 'L'],
        "SEB"@ =~= seq!['S', 'E', 'B'],
        "SNEB"@ =~= seq!['S', 'N', 'E', 'B'],
        "SE"@ =~= seq!['S', 'E'],
        "LDB"@ =~= seq!['L', 'D', 'B'],
        "ADDB"@ =~= seq!['A', 'D', 'D', 'B'],
        "LD"@ =~= seq!['L', 'D'],
        "OR"@ =~= seq!['O', 'R'],
        "AND"@ =~= seq!['A', 'N', 'D'],
        "XOR"@ =~= seq!['X', 'O', 'R'],
        "ADD"@ =~= seq!['A', 'D', 'D'],
        "SUB"@ =~= seq!['S', 'U', 'B'],
        "SHR"@ =~= seq!['S', 'H', 'R'],
        "SUBN"@ =~= seq!['S', 'U', 'B', 'N'],
        "SHL"@ =~= seq!['S', 'H', 'L'],
        "SNE"@ =~= seq!['S', 'N', 'E'],
        "LDI"@ =~= seq!['L', 'D', 'I'],
        "JPP"@ =~= seq!['J', 'P', 'P'],
        "RND"@ =~= seq!['R', 'N', 'D'],
        "DRW"@ =~= seq!['D', 'R', 'W'],
        "SKP"@ =~= seq!['S', 'K', 'P'],
        "SKNP"@ =~= seq!['S', 'K', 'N', 'P'],
        "GDT"@ =~= seq!['G', 'D', 'T'],
        "GK"@ =~= seq!['G', 'K'],
        "SDT"@ =~= seq!['S', 'D', 'T'],
        "SST"@ =~= seq!['S', 'S', 'T'],
        "ADDI"@ =~= seq!['A', 'D', 'D', 'I'],
        "FONT"@ =~= seq!['F', 'O', 'N', 'T'],
        "BCD"@ =~= seq!['B', 'C', 'D'],
        "DUMP"@ =~= seq!['D', 'U', 'M', 'P'],
        "LOAD"@ =~= seq!['L', 'O', 'A', 'D'],
{
    reveal_strlit("CLS");
    reveal_strlit("RET");
    reveal_strlit("JP");
    reveal_strlit("CALL");
    reveal_strlit("SEB");
    reveal_strlit("SNEB");
    reveal_strlit("SE");
    reveal_strlit("LDB");
    reveal_strlit("ADDB");
    reveal_strlit("LD");
    reveal_strlit("OR");
    reveal_strlit("AND");
    reveal_strlit("XOR");
    reveal_strlit("ADD");
    reveal_strlit("SUB");
    reveal_strlit("SHR");
    reveal_strlit("SUBN");
    reveal_strlit("SHL");
    reveal_strlit("SNE");
    reveal_strlit("LDI");
    reveal_strlit("JPP");
    reveal_strlit("RND");
    reveal_strlit("DRW");
    reveal_strlit("SKP");
    reveal_strlit("SKNP");
    reveal_strlit("GDT");
    reveal_strlit("GK");
    reveal_strlit("SDT");
    reveal_strlit("SST");
    reveal_strlit("ADDI");
    reveal_strlit("FONT");
    reveal_strlit("BCD");
    reveal_strlit("DUMP");
    reveal_strlit("LOAD");
}

/// Every mnemonic is a nonempty word without spaces or line breaks.
proof fn lemma_mnemonic_plain(name: Seq<char>)
    requires
        is_mnemonic(name),
    ensures
        name.len() > 0,
        forall|j: int|
            0 <= j < name.len() ==> #[trigger] name[j] != ' ' && name[j] != '\n' && name[j]
                != '\r',
{
    reveal_mnemonics();
}

/// The rendered operand list holds only digits, commas and spaces.
proof fn lemma_args_text_plain(args: Seq<u16>)
    ensures
        forall|j: int|
            0 <= j < args_text(args).len() ==> #[trigger] args_text(args)[j] != '\n' && args_text(
                args,
            )[j] != '\r',
    decreases args.len(),
{
    if args.len() == 0 {
    } else if args.len() == 1 {
        lemma_dec_digits_value(args[0] as nat);
        assert forall|j: int| 0 <= j < args_text(args).len() implies #[trigger] args_text(args)[j]
            != '\n' && args_text(args)[j] != '\r' by {
            assert(is_digit(args_text(args)[j]));
        }
    } else {
        lemma_dec_digits_value(args[0] as nat);
        lemma_args_text_plain(args.drop_first());
        let d0 = dec_digits(args[0] as nat);
        let at = args_text(args);
        assert forall|j: int| 0 <= j < at.len() implies #[trigger] at[j] != '\n' && at[j]
            != '\r' by {
            if j < d0.len() {
                assert(at[j] == d0[j]);
                assert(is_digit(d0[j]));
            } else if j == d0.len() {
                assert(at[j] == ',');
            } else if j == d0.len() + 1 {
                assert(at[j] == ' ');
            } else {
                assert(at[j] == args_text(args.drop_first())[j - d0.len() - 2]);
            }
        }
    }
}

/// The normalized text of a well-formed instruction is a nonempty line that
/// holds no line break and no carriage return.
pub proof fn lemma_render_plain(name: Seq<char>, args: Seq<u16>)
    requires
        valid_instruction(name, args),
    ensures
        ({
            let line = render_line_spec(name, args);
            &&& line.len() > 0
            &&& forall|j: int|
                0 <= j < line.len() ==> #[trigger] line[j] != '\n' && line[j] != '\r'
        }),
{
    lemma_mnemonic_plain(name);
    if args.len() == 0 {
    } else {
        lemma_args_text_plain(args);
        let at = args_text(args);
        let line = render_line_spec(name, args);
        assert forall|j: int| 0 <= j < line.len() implies #[trigger] line[j] != '\n' && line[j]
            != '\r' by {
            if j < name.len() {
                assert(line[j] == name[j]);
            } else if j == name.len() {
                assert(line[j] == ' ');
            } else {
                assert(line[j] == at[j - name.len() - 1]);
            }
        }
    }
}

/// A rendered operand piece — one space, then decimal digits — trims to the
/// digits, parses back to the value, and contains no comma.
proof fn lemma_space_digits(a: u16)
    ensures
        ({
            let d = dec_digits(a as nat);
            let piece = seq![' '] + d;
            &&& trim_spec(piece) == d
            &&& parses_u16(d)
            &&& dec_value(d) == a
            &&& forall|j: int| 0 <= j < piece.len() ==> #[trigger] piece[j] != ','
        }),
{
    lemma_dec_digits_value(a as nat);
    let d = dec_digits(a as nat);
    let piece = seq![' '] + d;
    assert forall|j: int| 0 <= j < piece.len() implies #[trigger] piece[j] != ',' by {
        if j >= 1 {
            assert(is_digit(d[j - 1]));
        }
    }
    assert(is_digit(d[0]));
    assert(!is_space(piece[1]));
    lemma_trim_front_at(piece, 1);
    assert(piece.subrange(1, piece.len() as int) =~= d);
    assert(is_digit(d[d.len() - 1]));
    lemma_trim_back_at(d, d.len() as int);
    assert(d.take(d.len() as int) =~= d);
}

/// Parsing inverts rendering for an instruction with one to three operands.
proof fn lemma_parse_render_line(name: Seq<char>, args: Seq<u16>)
    requires
        name.len() > 0,
        forall|j: int| 0 <= j < name.len() ==> #[trigger] name[j] != ' ',
        1 <= args.len() <= 3,
    ensures
        parse_line_spec(render_line_spec(name, args)) == Some((name, args)),
{
    let at = args_text(args);
    let line = name + seq![' '] + at;
    assert(render_line_spec(name, args) == line);
    assert(line[name.len() as int] == ' ');
    assert forall|j: int| 0 <= j < name.len() implies line[j] != ' ' by {
        assert(line[j] == name[j]);
    }
    assert(found_at(line, ' ', name.len() as int));
    lemma_find_char_is(line, ' ', name.len() as int);
    assert(line.take(name.len() as int) =~= name);
    let rest = line.subrange(name.len() as int, line.len() as int);
    assert(rest =~= seq![' '] + at);

    lemma_space_digits(args[0]);
    let d0 = dec_digits(args[0] as nat);
    let p0 = seq![' '] + d0;
    if args.len() == 1 {
        assert(at =~= d0);
        assert(rest == p0);
        lemma_split_none(p0, ',');
        assert(split_on(rest, ',') == seq![p0]);
        let parts = split_on(rest, ',').map_values(|p: Seq<char>| trim_spec(p));
        assert(parts =~= seq![d0]);
        assert(parts.map_values(|p: Seq<char>| dec_value(p) as u16) =~= args);
    } else if args.len() == 2 {
        lemma_space_digits(args[1]);
        let d1 = dec_digits(args[1] as nat);
        let p1 = seq![' '] + d1;
        assert(args.drop_first() =~= seq![args[1]]);
        assert(args_text(args.drop_first()) == d1);
        assert(rest =~= p0 + seq![','] + p1);
        lemma_split_prefix(p0, p1, ',');
        lemma_split_none(p1, ',');
        assert(split_on(rest, ',') =~= seq![p0, p1]);
        let parts = split_on(rest, ',').map_values(|p: Seq<char>| trim_spec(p));
        assert(parts =~= seq![d0, d1]);
        assert(parts.map_values(|p: Seq<char>| dec_value(p) as u16) =~= args);
    } else {
        lemma_space_digits(args[1]);
        lemma_space_digits(args[2]);
        let d1 = dec_digits(args[1] as nat);
        let d2 = dec_digits(args[2] as nat);
        let p1 = seq![' '] + d1;
        let p2 = seq![' '] + d2;
        assert(args.drop_first() =~= seq![args[1], args[2]]);
        assert(args.drop_first().drop_first() =~= seq![args[2]]);
        assert(args_text(args.drop_first().drop_first()) == d2);
        assert(args_text(args.drop_first()) == d1 + seq![',', ' '] + d2);
        assert(rest =~= p0 + seq![','] + (p1 + seq![','] + p2));
        lemma_split_prefix(p0, p1 + seq![','] + p2, ',');
        lemma_split_prefix(p1, p2, ',');
        lemma_split_none(p2, ',');
        assert(split_on(rest, ',') =~= seq![p0, p1, p2]);
        let parts = split_on(rest, ',').map_values(|p: Seq<char>| trim_spec(p));
        assert(parts =~= seq![d0, d1, d2]);
        assert(parts.map_values(|p: Seq<char>| dec_value(p) as u16) =~= args);
    }
}

/// The codec round trip.  Every well-formed instruction — a known mnemonic
/// with exactly its operands, each within its field — encodes to a word that
/// decodes back to the same instruction, and its normalized text form parses
/// back to the same instruction.  Together: disassembling an assembled
/// program reproduces the normalized source, and reassembling that source
/// reproduces the binary.
pub proof fn lemma_codec_round_trip(name: Seq<char>, args: Seq<u16>)
    requires
        valid_instruction(name, args),
    ensures
        decode_inst_spec(encode_word_spec(name, args)) == Some((name, args)),
        parse_line_spec(render_line_spec(name, args)) == Some((name, args)),
{
    lemma_mnemonic_plain(name);
    if args.len() == 0 {
        assert(render_line_spec(name, args) == name);
        if exists|i: int| found_at(name, ' ', i) {
            let i = choose|i: int| found_at(name, ' ', i);
            assert(name[i] != ' ');
            assert(false);
        }
        assert(parse_line_spec(name) == Some((name, Seq::<u16>::empty())));
        assert(args =~= Seq::<u16>::empty());
    } else {
        lemma_parse_render_line(name, args);
    }
    reveal_mnemonics();
    lemma_decode_encode(name, args);
}

/// Decoding inverts encoding for every well-formed instruction.
#[verifier::rlimit(100)]
proof fn lemma_decode_encode(name: Seq<char>, args: Seq<u16>)
    requires
        valid_instruction(name, args),
    ensures
        decode_inst_spec(encode_word_spec(name, args)) == Some((name, args)),
{
    reveal_mnemonics();
    let w = encode_word_spec(name, args);
    if name == "CLS"@ || name == "RET"@ {
        assert(args =~= Seq::<u16>::empty());
        assert(decode_inst_spec(w) == Some((name, Seq::<u16>::empty())));
    } else if is_nnn_mnemonic(name) {
        let f1: int = if name == "JP"@ {
            1
        } else if name == "CALL"@ {
            2
        } else if name == "LDI"@ {
            0xA
        } else {
            0xB
        };
        lemma_word_nnn(f1, args[0] as int);
        if name == "JP"@ {
            assert(w == 0x1000 + args[0]);
        } else if name == "CALL"@ {
            assert(w == 0x2000 + args[0]);
        } else if name == "LDI"@ {
            assert(name.len() == 3 && name[0] == 'L' && name[1] == 'D' && name[2] == 'I');
            assert(w == 0xA000 + args[0]);
        } else {
            assert(w == 0xB000 + args[0]);
        }
        assert(w == f1 * 0x1000 + args[0]);
        assert(args =~= seq![args[0]]);
        assert(decode_inst_spec(w) == Some((name, seq![args[0]])));
    } else if is_x_mnemonic(name) {
        let f1: int = if name == "SKP"@ || name == "SKNP"@ {
            0xE
        } else {
            0xF
        };
        let sel: int = if name == "SKP"@ {
            0x9E
        } else if name == "SKNP"@ {
            0xA1
        } else if name == "GDT"@ {
            0x07
        } else if name == "GK"@ {
            0x0A
        } else if name == "SDT"@ {
            0x15
        } else if name == "SST"@ {
            0x18
        } else if name == "ADDI"@ {
            0x1E
        } else if name == "FONT"@ {
            0x29
        } else if name == "BCD"@ {
            0x33
        } else if name == "DUMP"@ {
            0x55
        } else {
            0x65
        };
        lemma_word_xnn(f1, args[0] as int, sel);
        if name == "SKP"@ {
            assert(w == 0xE09E + args[0] * 0x100);
        } else if name == "SKNP"@ {
            assert(w == 0xE0A1 + args[0] * 0x100);
        } else if name == "GDT"@ {
            assert(w == 0xF007 + args[0] * 0x100);
        } else if name == "GK"@ {
            assert(w == 0xF00A + args[0] * 0x100);
        } else if name == "SDT"@ {
            assert(w == 0xF015 + args[0] * 0x100);
        } else if name == "SST"@ {
            assert(w == 0xF018 + args[0] * 0x100);
        } else if name == "ADDI"@ {
            assert(name.len() == 4 && name[0] == 'A' && name[1] == 'D' && name[2] == 'D' && name[3]
                == 'I');
            assert(w == 0xF01E + args[0] * 0x100);
        } else if name == "FONT"@ {
            assert(w == 0xF029 + args[0] * 0x100);
        } else if name == "BCD"@ {
            assert(w == 0xF033 + args[0] * 0x100);
        } else if name == "DUMP"@ {
            assert(w == 0xF055 + args[0] * 0x100);
        } else {
            assert(w == 0xF065 + args[0] * 0x100);
        }
        assert(w == f1 * 0x1000 + args[0] * 0x100 + sel);
        assert(args =~= seq![args[0]]);
        assert(decode_inst_spec(w) == Some((name, seq![args[0]])));
    } else if is_xnn_mnemonic(name) {
        let f1: int = if name == "SEB"@ {
            3
        } else if name == "SNEB"@ {
            4
        } else if name == "LDB"@ {
            6
        } else if name == "ADDB"@ {
            7
        } else {
            0xC
        };
        lemma_word_xnn(f1, args[0] as int, args[1] as int);
        assert(w == f1 * 0x1000 + args[0] * 0x100 + args[1]);
        assert(args =~= seq![args[0], args[1]]);
        assert(decode_inst_spec(w) == Some((name, seq![args[0], args[1]])));
    } else if is_xy_mnemonic(name) {
        let f1: int = if name == "SE"@ {
            5
        } else if name == "SNE"@ {
            9
        } else {
            8
        };
        let k: int = if name == "SE"@ || name == "SNE"@ || name == "LD"@ {
            0
        } else if name == "OR"@ {
            1
        } else if name == "AND"@ {
            2
        } else if name == "XOR"@ {
            3
        } else if name == "ADD"@ {
            4
        } else if name == "SUB"@ {
            5
        } else if name == "SHR"@ {
            6
        } else if name == "SUBN"@ {
            7
        } else {
            0xE
        };
        lemma_word_parts(f1, args[0] as int, args[1] as int, k);
        assert(w == f1 * 0x1000 + args[0] * 0x100 + args[1] * 0x10 + k);
        assert(args =~= seq![args[0], args[1]]);
        assert(decode_inst_spec(w) == Some((name, seq![args[0], args[1]])));
    } else {
        lemma_word_parts(0xD, args[0] as int, args[1] as int, args[2] as int);
        assert(w == 0xD000 + args[0] * 0x100 + args[1] * 0x10 + args[2]);
        assert(args =~= seq![args[0], args[1], args[2]]);
        assert(decode_inst_spec(w) == Some((name, seq![args[0], args[1], args[2]])));
    }
}

} // verus!
