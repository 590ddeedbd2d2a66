//! The assembler: line-oriented mnemonic text in, the binary opcode form
//! out.  Each non-empty line is a mnemonic with comma-separated decimal
//! operands; each instruction becomes one big-endian 16-bit word.  An
//! unknown mnemonic is not an error: it assembles to the null word.  A bad
//! operand is an error naming the line and the mnemonic.

use vstd::prelude::*;
use crate::opcode::{
    args_ok, arity, encode_word_spec, is_mnemonic, name_part_spec, parse_line_spec,
};
use crate::text::{
    chars_to_string, copy_range, dec_value, find_char, find_in, parse_u16, parses_u16,
    split_chars, split_on, string_to_chars, trim_chars, trim_spec,
};

verus! {

/// Why a source line was rejected.
#[derive(Clone, Copy, PartialEq, Eq, Structural, Debug)]
pub enum AsmErrorKind {
    /// An operand is not a decimal number that fits in 16 bits.
    BadOperand,
    /// The mnemonic needs more operands than the line carries.
    MissingOperand,
    /// An operand does not fit in the field it is packed into.
    OperandOutOfRange,
}

/// A rejected line: its 1-based position in the source, the mnemonic it
/// began with, and what was wrong with it.
#[derive(Debug)]
pub struct AsmError {
    pub line: usize,
    pub name: String,
    pub kind: AsmErrorKind,
}

/// One parsed instruction: a mnemonic and its numeric operands.
#[derive(Debug)]
pub struct Instruction {
    pub name: String,
    pub args: Vec<u16>,
}

/// A line with one trailing carriage return dropped, as reading a text file
/// with Windows line endings leaves it.
pub open spec fn strip_cr(l: Seq<char>) -> Seq<char> {
    if l.len() > 0 && l.last() == '\r' {
        l.drop_last()
    } else {
        l
    }
}

/// The word a parsed instruction assembles to: the null word for an unknown
/// mnemonic, an error for a known mnemonic with too few operands or an
/// operand too large for its field, and otherwise the packed encoding.
/// Operands beyond the mnemonic's arity are ignored.
pub open spec fn word_of_instruction(name: Seq<char>, args: Seq<u16>) -> Result<
    u16,
    AsmErrorKind,
> {
    if !is_mnemonic(name) {
        Ok(0x0000)
    } else if args.len() < arity(name) {
        Err(AsmErrorKind::MissingOperand)
    } else if !args_ok(name, args.take(arity(name))) {
        Err(AsmErrorKind::OperandOutOfRange)
    } else {
        Ok(encode_word_spec(name, args.take(arity(name))))
    }
}

/// Assembly over a list of source lines numbered from `number`: empty lines
/// are skipped, every other line must parse, and the first bad line wins.
/// On success, the two big-endian bytes of every instruction word, in line
/// order.
pub open spec fn assemble_rec(lines: Seq<Seq<char>>, number: int) -> Result<
    Seq<u8>,
    (int, Seq<char>, AsmErrorKind),
>
    decreases lines.len(),
{
    if lines.len() == 0 {
        Ok(Seq::empty())
    } else {
        let line = strip_cr(lines[0]);
        if line.len() == 0 {
            assemble_rec(lines.drop_first(), number + 1)
        } else {
            match parse_line_spec(line) {
                None => Err((number, name_part_spec(line), AsmErrorKind::BadOperand)),
                Some(inst) => match word_of_instruction(inst.0, inst.1) {
                    Err(kind) => Err((number, inst.0, kind)),
                    Ok(w) => match assemble_rec(lines.drop_first(), number + 1) {
                        Err(e) => Err(e),
                        Ok(rest) => Ok(seq![(w / 0x100) as u8, (w % 0x100) as u8] + rest),
                    },
                },
            }
        }
    }
}

/// What assembling a whole source text yields.
pub open spec fn assemble_spec(text: Seq<char>) -> Result<
    Seq<u8>,
    (int, Seq<char>, AsmErrorKind),
> {
    assemble_rec(split_on(text, '\n'), 1)
}

/// Whether two string slices hold the same characters.
fn str_eq(a: &str, b: &str) -> (r: bool)
    ensures
        r == (a@ == b@),
{
    let n = a.unicode_len();
    let m = b.unicode_len();
    if n != m {
        return false;
    }
    let mut k: usize = 0;
    while k < n
        invariant
            k <= n,
            n == a@.len(),
            n == b@.len(),
            forall|j: int| 0 <= j < k ==> a@[j] == b@[j],
        decreases n - k,
    {
        if a.get_char(k) != b.get_char(k) {
            return false;
        }
        k = k + 1;
    }
    proof {
        assert(a@ =~= b@);
    }
    true
}

/// The mnemonic part of a line: everything before the first space.
pub fn name_part(line: &Vec<char>) -> (r: String)
    ensures
        r@ == name_part_spec(line@),
{
    match find_in(line, ' ') {
        None => chars_to_string(line),
        Some(sp) => {
            let prefix = copy_range(line, 0, sp);
            proof {
                assert(prefix@ =~= line@.take(find_char(line@, ' ')));
            }
            chars_to_string(&prefix)
        }
    }
}

/// A single source line parsed into a mnemonic and its operands: the text
/// before the first space is the mnemonic, the rest splits on commas, and
/// each piece, trimmed, must be a decimal 16-bit number.
pub fn parse_instruction(line: &Vec<char>) -> (r: Result<Instruction, AsmErrorKind>)
    ensures
        parse_line_spec(line@) matches Some(inst) ==> r matches Ok(i) && i.name@ == inst.0
            && i.args@ == inst.1,
        parse_line_spec(line@) is None ==> r == Err::<Instruction, AsmErrorKind>(
            AsmErrorKind::BadOperand,
        ),
{
    match find_in(line, ' ') {
        None => Ok(Instruction { name: chars_to_string(line), args: Vec::new() }),
        Some(sp) => {
            let n = line.len();
            let name_chars = copy_range(line, 0, sp);
            let name = chars_to_string(&name_chars);
            let rest = copy_range(line, sp, n);
            let parts = split_chars(&rest, ',');
            let ghost sparts = split_on(rest@, ',').map_values(|p: Seq<char>| trim_spec(p));
            let mut args: Vec<u16> = Vec::new();
            let mut k: usize = 0;
            proof {
                assert(name_chars@ =~= line@.take(sp as int));
            }
            while k < parts.len()
                invariant
                    k <= parts@.len(),
                    sp < line@.len(),
                    find_char(line@, ' ') == sp,
                    rest@ == line@.subrange(sp as int, line@.len() as int),
                    parts@.len() == split_on(rest@, ',').len(),
                    forall|i: int| 0 <= i < parts@.len() ==> #[trigger] parts@[i]@ == split_on(
                        rest@,
                        ',',
                    )[i],
                    sparts == split_on(rest@, ',').map_values(|p: Seq<char>| trim_spec(p)),
                    args@.len() == k,
                    forall|i: int| 0 <= i < k ==> parses_u16(#[trigger] sparts[i]),
                    forall|i: int| 0 <= i < k ==> #[trigger] args@[i] == dec_value(
                        sparts[i],
                    ) as u16,
                decreases parts@.len() - k,
            {
                let trimmed = trim_chars(&parts[k]);
                proof {
                    assert(trimmed@ == sparts[k as int]);
                }
                match parse_u16(&trimmed) {
                    None => {
                        proof {
                            let pparts = split_on(
                                line@.subrange(sp as int, line@.len() as int),
                                ',',
                            ).map_values(|p: Seq<char>| trim_spec(p));
                            assert(rest@ == line@.subrange(sp as int, line@.len() as int));
                            assert(pparts =~= sparts);
                            assert(!parses_u16(pparts[k as int]));
                        }
                        return Err(AsmErrorKind::BadOperand);
                    }
                    Some(value) => {
                        args.push(value);
                    }
                }
                k = k + 1;
            }
            proof {
                let pparts = split_on(
                    line@.subrange(sp as int, line@.len() as int),
                    ',',
                ).map_values(|p: Seq<char>| trim_spec(p));
                assert(rest@ == line@.subrange(sp as int, line@.len() as int));
                assert(pparts =~= sparts);
                assert(forall|i: int| 0 <= i < pparts.len() ==> parses_u16(#[trigger] pparts[i]));
                assert(args@ =~= pparts.map_values(|p: Seq<char>| dec_value(p) as u16));
            }
            Ok(Instruction { name, args })
        }
    }
}

/// Parsing over a list of source lines numbered from `number`: empty lines
/// are skipped, every other line must parse, and the first bad line wins.
pub open spec fn parse_program_rec(lines: Seq<Seq<char>>, number: int) -> Result<
    Seq<(Seq<char>, Seq<u16>)>,
    (int, Seq<char>),
>
    decreases lines.len(),
{
    if lines.len() == 0 {
        Ok(Seq::empty())
    } else {
        let line = strip_cr(lines[0]);
        if line.len() == 0 {
            parse_program_rec(lines.drop_first(), number + 1)
        } else {
            match parse_line_spec(line) {
                None => Err((number, name_part_spec(line))),
                Some(inst) => match parse_program_rec(lines.drop_first(), number + 1) {
                    Err(e) => Err(e),
                    Ok(rest) => Ok(seq![inst] + rest),
                },
            }
        }
    }
}

/// What parsing a whole source text yields.
pub open spec fn parse_program_spec(text: Seq<char>) -> Result<
    Seq<(Seq<char>, Seq<u16>)>,
    (int, Seq<char>),
> {
    parse_program_rec(split_on(text, '\n'), 1)
}

/// Every non-empty source line parsed into an instruction, in order; or the
/// first line whose operands do not parse, named by number and mnemonic.
pub fn parse_instructions(text: String) -> (r: Result<Vec<Instruction>, AsmError>)
    ensures
        parse_program_spec(text@) matches Ok(insts) ==> r matches Ok(v) && v@.len() == insts.len()
            && forall|i: int|
            0 <= i < insts.len() ==> (#[trigger] v@[i].name@, v@[i].args@) == insts[i],
        parse_program_spec(text@) matches Err(e) ==> r matches Err(a) && a.line == e.0 && a.name@
            == e.1 && a.kind == AsmErrorKind::BadOperand,
{
    let chars = string_to_chars(text.as_str());
    let lines = split_chars(&chars, '\n');
    let ghost slines = split_on(text@, '\n');
    let mut out: Vec<Instruction> = Vec::new();
    let mut k: usize = 0;
    proof {
        assert(slines.skip(0) =~= slines);
    }
    while k < lines.len()
        invariant
            k <= lines@.len(),
            lines@.len() == slines.len(),
            slines == split_on(text@, '\n'),
            forall|i: int| 0 <= i < lines@.len() ==> #[trigger] lines@[i]@ == slines[i],
            match parse_program_rec(slines.skip(k as int), k + 1) {
                Ok(insts) => parse_program_spec(text@) matches Ok(all) && all.len() == out@.len()
                    + insts.len() && (forall|i: int|
                    0 <= i < out@.len() ==> (#[trigger] out@[i].name@, out@[i].args@) == all[i])
                    && (forall|i: int|
                    out@.len() <= i < all.len() ==> #[trigger] all[i] == insts[i - out@.len()]),
                Err(e) => parse_program_spec(text@) == Err::<
                    Seq<(Seq<char>, Seq<u16>)>,
                    (int, Seq<char>),
                >(e),
            },
        decreases lines@.len() - k,
    {
        proof {
            assert(slines.skip(k as int).drop_first() =~= slines.skip(k + 1));
            assert(slines.skip(k as int)[0] == slines[k as int]);
        }
        let raw = &lines[k];
        let m = raw.len();
        let line = if m > 0 && raw[m - 1] == '\r' {
            copy_range(raw, 0, m - 1)
        } else {
            copy_range(raw, 0, m)
        };
        proof {
            assert(line@ =~= strip_cr(slines[k as int]));
        }
        if line.len() > 0 {
            match parse_instruction(&line) {
                Err(kind) => {
                    let mnemonic = name_part(&line);
                    return Err(AsmError { line: k + 1, name: mnemonic, kind });
                }
                Ok(inst) => {
                    out.push(inst);
                }
            }
        }
        k = k + 1;
    }
    proof {
        assert(slines.skip(slines.len() as int) =~= Seq::<Seq<char>>::empty());
    }
    Ok(out)
}

/// An address-operand instruction packed, or why it cannot be.
fn encode_nnn(base: u16, args: &Vec<u16>) -> (r: Result<u16, AsmErrorKind>)
    requires
        base <= 0xB000,
    ensures
        r == (if args@.len() < 1 {
            Err::<u16, AsmErrorKind>(AsmErrorKind::MissingOperand)
        } else if args@[0] >= 0x1000 {
            Err::<u16, AsmErrorKind>(AsmErrorKind::OperandOutOfRange)
        } else {
            Ok::<u16, AsmErrorKind>((base + args@[0]) as u16)
        }),
{
    if args.len() < 1 {
        Err(AsmErrorKind::MissingOperand)
    } else if args[0] >= 0x1000 {
        Err(AsmErrorKind::OperandOutOfRange)
    } else {
        Ok(base + args[0])
    }
}

/// A register-operand instruction packed, or why it cannot be.
fn encode_x(base: u16, args: &Vec<u16>) -> (r: Result<u16, AsmErrorKind>)
    requires
        base <= 0xF0FF,
    ensures
        r == (if args@.len() < 1 {
            Err::<u16, AsmErrorKind>(AsmErrorKind::MissingOperand)
        } else if args@[0] >= 16 {
            Err::<u16, AsmErrorKind>(AsmErrorKind::OperandOutOfRange)
        } else {
            Ok::<u16, AsmErrorKind>((base + args@[0] * 0x100) as u16)
        }),
{
    if args.len() < 1 {
        Err(AsmErrorKind::MissingOperand)
    } else if args[0] >= 16 {
        Err(AsmErrorKind::OperandOutOfRange)
    } else {
        Ok(base + args[0] * 0x100)
    }
}

/// A register-and-immediate instruction packed, or why it cannot be.
fn encode_xnn(base: u16, args: &Vec<u16>) -> (r: Result<u16, AsmErrorKind>)
    requires
        base <= 0xC000,
    ensures
        r == (if args@.len() < 2 {
            Err::<u16, AsmErrorKind>(AsmErrorKind::MissingOperand)
        } else if args@[0] >= 16 || args@[1] >= 0x100 {
            Err::<u16, AsmErrorKind>(AsmErrorKind::OperandOutOfRange)
        } else {
            Ok::<u16, AsmErrorKind>((base + args@[0] * 0x100 + args@[1]) as u16)
        }),
{
    if args.len() < 2 {
        Err(AsmErrorKind::MissingOperand)
    } else if args[0] >= 16 || args[1] >= 0x100 {
        Err(AsmErrorKind::OperandOutOfRange)
    } else {
        Ok(base + args[0] * 0x100 + args[1])
    }
}

/// A two-register instruction packed, or why it cannot be.
fn encode_xy(base: u16, args: &Vec<u16>) -> (r: Result<u16, AsmErrorKind>)
    requires
        base <= 0x900E,
    ensures
        r == (if args@.len() < 2 {
            Err::<u16, AsmErrorKind>(AsmErrorKind::MissingOperand)
        } else if args@[0] >= 16 || args@[1] >= 16 {
            Err::<u16, AsmErrorKind>(AsmErrorKind::OperandOutOfRange)
        } else {
            Ok::<u16, AsmErrorKind>((base + args@[0] * 0x100 + args@[1] * 0x10) as u16)
        }),
{
    if args.len() < 2 {
        Err(AsmErrorKind::MissingOperand)
    } else if args[0] >= 16 || args[1] >= 16 {
        Err(AsmErrorKind::OperandOutOfRange)
    } else {
        Ok(base + args[0] * 0x100 + args[1] * 0x10)
    }
}

/// The sprite-draw instruction packed, or why it cannot be.
fn encode_drw(args: &Vec<u16>) -> (r: Result<u16, AsmErrorKind>)
    ensures
        r == (if args@.len() < 3 {
            Err::<u16, AsmErrorKind>(AsmErrorKind::MissingOperand)
        } else if args@[0] >= 16 || args@[1] >= 16 || args@[2] >= 16 {
            Err::<u16, AsmErrorKind>(AsmErrorKind::OperandOutOfRange)
        } else {
            Ok::<u16, AsmErrorKind>(
                (0xD000 + args@[0] * 0x100 + args@[1] * 0x10 + args@[2]) as u16,
            )
        }),
{
    if args.len() < 3 {
        Err(AsmErrorKind::MissingOperand)
    } else if args[0] >= 16 || args[1] >= 16 || args[2] >= 16 {
        Err(AsmErrorKind::OperandOutOfRange)
    } else {
        Ok(0xD000 + args[0] * 0x100 + args[1] * 0x10 + args[2])
    }
}

/// The instruction word a parsed instruction assembles to: the mnemonic
/// table row, with the operand checks `word_of_instruction` prescribes.
#[verifier::rlimit(100)]
pub fn encode_instruction(inst: &Instruction) -> (r: Result<u16, AsmErrorKind>)
    ensures
        r == word_of_instruction(inst.name@, inst.args@),
{
    proof {
        crate::opcode::reveal_mnemonics();
    }
    let name = inst.name.as_str();
    let a = &inst.args;
    if str_eq(name, "CLS") {
        proof {
            assert(inst.name@.len() == 3 && inst.name@[0] == 'C' && inst.name@[1] == 'L' && inst.name@[2] == 'S');
            assert(inst.args@.take(0) =~= Seq::<u16>::empty());
        }
        Ok(0x00E0)
    } else if str_eq(name, "RET") {
        proof {
            assert(inst.name@.len() == 3 && inst.name@[0] == 'R' && inst.name@[1] == 'E' && inst.name@[2] == 'T');
            assert(inst.args@.take(0) =~= Seq::<u16>::empty());
        }
        Ok(0x00EE)
    } else if str_eq(name, "JP") {
        proof {
            assert(inst.name@.len() == 2 && inst.name@[0] == 'J' && inst.name@[1] == 'P');
            lemma_take_one(inst.args@);
        }
        encode_nnn(0x1000, a)
    } else if str_eq(name, "CALL") {
        proof {
            assert(inst.name@.len() == 4 && inst.name@[0] == 'C' && inst.name@[1] == 'A' && inst.name@[2] == 'L' && inst.name@[3] == 'L');
            lemma_take_one(inst.args@);
        }
        encode_nnn(0x2000, a)
    } else if str_eq(name, "SEB") {
        proof {
            assert(inst.name@.len() == 3 && inst.name@[0] == 'S' && inst.name@[1] == 'E' && inst.name@[2] == 'B');
            lemma_take_two(inst.args@);
        }
        encode_xnn(0x3000, a)
    } else if str_eq(name, "SNEB") {
        proof {
            assert(inst.name@.len() == 4 && inst.name@[0] == 'S' && inst.name@[1] == 'N' && inst.name@[2] == 'E' && inst.name@[3] == 'B');
            lemma_take_two(inst.args@);
        }
        encode_xnn(0x4000, a)
    } else if str_eq(name, "SE") {
        proof {
            assert(inst.name@.len() == 2 && inst.name@[0] == 'S' && inst.name@[1] == 'E');
            lemma_take_two(inst.args@);
        }
        encode_xy(0x5000, a)
    } else if str_eq(name, "LDB") {
        proof {
            assert(inst.name@.len() == 3 && inst.name@[0] == 'L' && inst.name@[1] == 'D' && inst.name@[2] == 'B');
            lemma_take_two(inst.args@);
        }
        encode_xnn(0x6000, a)
    } else if str_eq(name, "ADDB") {
        proof {
            assert(inst.name@.len() == 4 && inst.name@[0] == 'A' && inst.name@[1] == 'D' && inst.name@[2] == 'D' && inst.name@[3] == 'B');
            lemma_take_two(inst.args@);
        }
        encode_xnn(0x7000, a)
    } else if str_eq(name, "LD") {
        proof {
            assert(inst.name@.len() == 2 && inst.name@[0] == 'L' && inst.name@[1] == 'D');
            lemma_take_two(inst.args@);
        }
        encode_xy(0x8000, a)
    } else if str_eq(name, "OR") {
        proof {
            assert(inst.name@.len() == 2 && inst.name@[0] == 'O' && inst.name@[1] == 'R');
            lemma_take_two(inst.args@);
        }
        encode_xy(0x8001, a)
    } else if str_eq(name, "AND") {
        proof {
            assert(inst.name@.len() == 3 && inst.name@[0] == 'A' && inst.name@[1] == 'N' && inst.name@[2] == 'D');
            lemma_take_two(inst.args@);
        }
        encode_xy(0x8002, a)
    } else if str_eq(name, "XOR") {
        proof {
            assert(inst.name@.len() == 3 && inst.name@[0] == 'X' && inst.name@[1] == 'O' && inst.name@[2] == 'R');
            lemma_take_two(inst.args@);
        }
        encode_xy(0x8003, a)
    } else if str_eq(name, "ADD") {
        proof {
            assert(inst.name@.len() == 3 && inst.name@[0] == 'A' && inst.name@[1] == 'D' && inst.name@[2] == 'D');
            lemma_take_two(inst.args@);
        }
        encode_xy(0x8004, a)
    } else if str_eq(name, "SUB") {
        proof {
            assert(inst.name@.len() == 3 && inst.name@[0] == 'S' && inst.name@[1] == 'U' && inst.name@[2] == 'B');
            lemma_take_two(inst.args@);
        }
        encode_xy(0x8005, a)
    } else if str_eq(name, "SHR") {
        proof {
            assert(inst.name@.len() == 3 && inst.name@[0] == 'S' && inst.name@[1] == 'H' && inst.name@[2] == 'R');
            lemma_take_two(inst.args@);
        }
        encode_xy(0x8006, a)
    } else if str_eq(name, "SUBN") {
        proof {
            assert(inst.name@.len() == 4 && inst.name@[0] == 'S' && inst.name@[1] == 'U' && inst.name@[2] == 'B' && inst.name@[3] == 'N');
            lemma_take_two(inst.args@);
        }
        encode_xy(0x8007, a)
    } else if str_eq(name, "SHL") {
        proof {
            assert(inst.name@.len() == 3 && inst.name@[0] == 'S' && inst.name@[1] == 'H' && inst.name@[2] == 'L');
            lemma_take_two(inst.args@);
        }
        encode_xy(0x800E, a)
    } else if str_eq(name, "SNE") {
        proof {
            assert(inst.name@.len() == 3 && inst.name@[0] == 'S' && inst.name@[1] == 'N' && inst.name@[2] == 'E');
            lemma_take_two(inst.args@);
        }
        encode_xy(0x9000, a)
    } else if str_eq(name, "LDI") {
        proof {
            assert(inst.name@.len() == 3 && inst.name@[0] == 'L' && inst.name@[1] == 'D' && inst.name@[2] == 'I');
            lemma_take_one(inst.args@);
        }
        encode_nnn(0xA000, a)
    } else if str_eq(name, "JPP") {
        proof {
            assert(inst.name@.len() == 3 && inst.name@[0] == 'J' && inst.name@[1] == 'P' && inst.name@[2] == 'P');
            lemma_take_one(inst.args@);
        }
        encode_nnn(0xB000, a)
    } else if str_eq(name, "RND") {
        proof {
            assert(inst.name@.len() == 3 && inst.name@[0] == 'R' && inst.name@[1] == 'N' && inst.name@[2] == 'D');
            lemma_take_two(inst.args@);
        }
        encode_xnn(0xC000, a)
    } else if str_eq(name, "DRW") {
        proof {
            assert(inst.name@.len() == 3 && inst.name@[0] == 'D' && inst.name@[1] == 'R' && inst.name@[2] == 'W');
            lemma_take_three(inst.args@);
        }
        encode_drw(a)
    } else if str_eq(name, "SKP") {
        proof {
            assert(inst.name@.len() == 3 && inst.name@[0] == 'S' && inst.name@[1] == 'K' && inst.name@[2] == 'P');
            lemma_take_one(inst.args@);
        }
        encode_x(0xE09E, a)
    } else if str_eq(name, "SKNP") {
        proof {
            assert(inst.name@.len() == 4 && inst.name@[0] == 'S' && inst.name@[1] == 'K' && inst.name@[2] == 'N' && inst.name@[3] == 'P');
            lemma_take_one(inst.args@);
        }
        encode_x(0xE0A1, a)
    } else if str_eq(name, "GDT") {
        proof {
            assert(inst.name@.len() == 3 && inst.name@[0] == 'G' && inst.name@[1] == 'D' && inst.name@[2] == 'T');
            lemma_take_one(inst.args@);
        }
        encode_x(0xF007, a)
    } else if str_eq(name, "GK") {
        proof {
            assert(inst.name@.len() == 2 && inst.name@[0] == 'G' && inst.name@[1] == 'K');
            lemma_take_one(inst.args@);
        }
        encode_x(0xF00A, a)
    } else if str_eq(name, "SDT") {
        proof {
            assert(inst.name@.len() == 3 && inst.name@[0] == 'S' && inst.name@[1] == 'D' && inst.name@[2] == 'T');
            lemma_take_one(inst.args@);
        }
        encode_x(0xF015, a)
    } else if str_eq(name, "SST") {
        proof {
            assert(inst.name@.len() == 3 && inst.name@[0] == 'S' && inst.name@[1] == 'S' && inst.name@[2] == 'T');
            lemma_take_one(inst.args@);
        }
        encode_x(0xF018, a)
    } else if str_eq(name, "ADDI") {
        proof {
            assert(inst.name@.len() == 4 && inst.name@[0] == 'A' && inst.name@[1] == 'D' && inst.name@[2] == 'D' && inst.name@[3] == 'I');
            lemma_take_one(inst.args@);
        }
        encode_x(0xF01E, a)
    } else if str_eq(name, "FONT") {
        proof {
            assert(inst.name@.len() == 4 && inst.name@[0] == 'F' && inst.name@[1] == 'O' && inst.name@[2] == 'N' && inst.name@[3] == 'T');
            lemma_take_one(inst.args@);
        }
        encode_x(0xF029, a)
    } else if str_eq(name, "BCD") {
        proof {
            assert(inst.name@.len() == 3 && inst.name@[0] == 'B' && inst.name@[1] == 'C' && inst.name@[2] == 'D');
            lemma_take_one(inst.args@);
        }
        encode_x(0xF033, a)
    } else if str_eq(name, "DUMP") {
        proof {
            assert(inst.name@.len() == 4 && inst.name@[0] == 'D' && inst.name@[1] == 'U' && inst.name@[2] == 'M' && inst.name@[3] == 'P');
            lemma_take_one(inst.args@);
        }
        encode_x(0xF055, a)
    } else if str_eq(name, "LOAD") {
        proof {
            assert(inst.name@.len() == 4 && inst.name@[0] == 'L' && inst.name@[1] == 'O' && inst.name@[2] == 'A' && inst.name@[3] == 'D');
            lemma_take_one(inst.args@);
        }
        encode_x(0xF065, a)
    } else {
        Ok(0x0000)
    }
}

/// The one-element prefix of a nonempty sequence, spelled out.
proof fn lemma_take_one(args: Seq<u16>)
    ensures
        args.len() >= 1 ==> args.take(1) =~= seq![args[0]],
{
}

/// The two-element prefix of a long enough sequence, spelled out.
proof fn lemma_take_two(args: Seq<u16>)
    ensures
        args.len() >= 2 ==> args.take(2) =~= seq![args[0], args[1]],
{
}

/// The three-element prefix of a long enough sequence, spelled out.
proof fn lemma_take_three(args: Seq<u16>)
    ensures
        args.len() >= 3 ==> args.take(3) =~= seq![args[0], args[1], args[2]],
{
}

/// The assembled binary of a source text: the two big-endian bytes of every
/// non-empty line's instruction word, in line order, per `assemble_spec`; or
/// the first bad line, named by number and mnemonic.
pub fn assemble(text: String) -> (r: Result<Vec<u8>, AsmError>)
    ensures
        assemble_spec(text@) matches Ok(bytes) ==> r matches Ok(v) && v@ == bytes,
        assemble_spec(text@) matches Err(e) ==> r matches Err(a) && a.line == e.0 && a.name@ == e.1
            && a.kind == e.2,
{
    let chars = string_to_chars(text.as_str());
    let lines = split_chars(&chars, '\n');
    let ghost slines = split_on(text@, '\n');
    let mut out: Vec<u8> = Vec::new();
    let mut k: usize = 0;
    proof {
        assert(slines.skip(0) =~= slines);
    }
    while k < lines.len()
        invariant
            k <= lines@.len(),
            lines@.len() == slines.len(),
            slines == split_on(text@, '\n'),
            forall|i: int| 0 <= i < lines@.len() ==> #[trigger] lines@[i]@ == slines[i],
            match assemble_rec(slines.skip(k as int), k + 1) {
                Ok(bytes) => assemble_spec(text@) == Ok::<Seq<u8>, (int, Seq<char>, AsmErrorKind)>(
                    out@ + bytes,
                ),
                Err(e) => assemble_spec(text@) == Err::<Seq<u8>, (int, Seq<char>, AsmErrorKind)>(
                    e,
                ),
            },
        decreases lines@.len() - k,
    {
        proof {
            assert(slines.skip(k as int).drop_first() =~= slines.skip(k + 1));
            assert(slines.skip(k as int)[0] == slines[k as int]);
        }
        let raw = &lines[k];
        let m = raw.len();
        let line = if m > 0 && raw[m - 1] == '\r' {
            copy_range(raw, 0, m - 1)
        } else {
            copy_range(raw, 0, m)
        };
        proof {
            assert(line@ =~= strip_cr(slines[k as int]));
        }
        if line.len() > 0 {
            match parse_instruction(&line) {
                Err(kind) => {
                    let mnemonic = name_part(&line);
                    return Err(AsmError { line: k + 1, name: mnemonic, kind });
                }
                Ok(inst) => {
                    match encode_instruction(&inst) {
                        Err(kind) => {
                            return Err(AsmError { line: k + 1, name: inst.name, kind });
                        }
                        Ok(w) => {
                            let ghost out_pre = out@;
                            out.push((w / 0x100) as u8);
                            out.push((w % 0x100) as u8);
                            proof {
                                assert(out@ =~= out_pre + seq![
                                    (w / 0x100) as u8,
                                    (w % 0x100) as u8,
                                ]);
                                if let Ok(rest) = assemble_rec(slines.skip(k + 1), k + 2) {
                                    assert(out_pre + (seq![(w / 0x100) as u8, (w % 0x100) as u8]
                                        + rest) =~= out@ + rest);
                                }
                            }
                        }
                    }
                }
            }
        }
        k = k + 1;
    }
    proof {
        assert(slines.skip(slines.len() as int) =~= Seq::<Seq<char>>::empty());
        assert(out@ + Seq::<u8>::empty() =~= out@);
    }
    Ok(out)
}

} // verus!
