//! The disassembler: binary opcode words in, mnemonic text out.  Consecutive
//! big-endian 16-bit words each decode to one line; a word outside the
//! format decodes to an empty line rather than an error.

use vstd::prelude::*;
use vstd::string::StringExecFns;
use crate::assembler::{assemble_rec, assemble_spec, strip_cr, word_of_instruction, AsmErrorKind};
use crate::opcode::{
    args_text, decode_inst_spec, encode_word_spec, lemma_codec_round_trip, lemma_render_plain,
    lemma_word_parts, render_line_spec, valid_instruction,
};
use crate::text::{
    dec_digits, lemma_split_none, lemma_split_prefix, split_on, u16_to_dec,
};

verus! {

/// The text line one instruction word (given as its two big-endian bytes)
/// decodes to: the normalized rendering of the decoded instruction, or the
/// empty line for a word outside the format.
pub open spec fn decode_line_spec(b1: u8, b2: u8) -> Seq<char> {
    match decode_inst_spec((b1 * 0x100 + b2) as u16) {
        None => Seq::empty(),
        Some(inst) => render_line_spec(inst.0, inst.1),
    }
}

/// The lines of a whole binary: one per consecutive 2-byte word, a trailing
/// odd byte ignored.
pub open spec fn decoded_lines(b: Seq<u8>) -> Seq<Seq<char>> {
    Seq::new((b.len() / 2) as nat, |i: int| decode_line_spec(b[2 * i], b[2 * i + 1]))
}

/// Lines joined by single newlines, none at the end.
pub open spec fn join_lines(ls: Seq<Seq<char>>) -> Seq<char>
    decreases ls.len(),
{
    if ls.len() == 0 {
        Seq::empty()
    } else if ls.len() == 1 {
        ls[0]
    } else {
        join_lines(ls.drop_last()) + seq!['\n'] + ls.last()
    }
}

/// What disassembling a whole binary yields.
pub open spec fn disassemble_spec(b: Seq<u8>) -> Seq<char> {
    join_lines(decoded_lines(b))
}

/// Joining from the front: the first line, a newline, then the rest.
proof fn lemma_join_front(ls: Seq<Seq<char>>)
    requires
        ls.len() >= 2,
    ensures
        join_lines(ls) == ls[0] + seq!['\n'] + join_lines(ls.drop_first()),
    decreases ls.len(),
{
    if ls.len() == 2 {
        assert(ls.drop_last() =~= seq![ls[0]]);
        assert(ls.drop_first() =~= seq![ls[1]]);
        assert(join_lines(seq![ls[0]]) == ls[0]);
        assert(join_lines(seq![ls[1]]) == ls[1]);
    } else {
        lemma_join_front(ls.drop_last());
        assert(ls.drop_last()[0] == ls[0]);
        assert(ls.drop_last().drop_first() =~= ls.drop_first().drop_last());
        assert(ls.drop_first().last() == ls.last());
        assert(join_lines(ls.drop_first()) == join_lines(ls.drop_first().drop_last()) + seq!['\n']
            + ls.drop_first().last());
        assert(join_lines(ls) =~= ls[0] + seq!['\n'] + join_lines(ls.drop_first()));
    }
}

/// Splitting on newlines inverts joining, for lines that hold none.
proof fn lemma_split_join(ls: Seq<Seq<char>>)
    requires
        ls.len() >= 1,
        forall|i: int, j: int|
            0 <= i < ls.len() && 0 <= j < ls[i].len() ==> #[trigger] ls[i][j] != '\n',
    ensures
        split_on(join_lines(ls), '\n') == ls,
    decreases ls.len(),
{
    if ls.len() == 1 {
        assert(join_lines(ls) == ls[0]);
        assert forall|j: int| 0 <= j < ls[0].len() implies #[trigger] ls[0][j] != '\n' by {
            assert(ls[0int][j] != '\n');
        }
        lemma_split_none(ls[0], '\n');
        assert(seq![ls[0]] =~= ls);
    } else {
        lemma_join_front(ls);
        assert forall|j: int| 0 <= j < ls[0].len() implies #[trigger] ls[0][j] != '\n' by {
            assert(ls[0int][j] != '\n');
        }
        lemma_split_prefix(ls[0], join_lines(ls.drop_first()), '\n');
        assert forall|i: int, j: int|
            0 <= i < ls.drop_first().len() && 0 <= j < ls.drop_first()[i].len() implies #[trigger] ls.drop_first()[i][j]
            != '\n' by {
            assert(ls.drop_first()[i] == ls[i + 1]);
            assert(ls[i + 1][j] != '\n');
        }
        lemma_split_join(ls.drop_first());
        assert(seq![ls[0]] + ls.drop_first() =~= ls);
    }
}

/// The binary of a program: the two big-endian bytes of each instruction's
/// word, in order.
pub open spec fn program_bytes(insts: Seq<(Seq<char>, Seq<u16>)>) -> Seq<u8> {
    Seq::new((2 * insts.len()) as nat, |j: int|
        {
            let w = encode_word_spec(insts[j / 2].0, insts[j / 2].1);
            if j % 2 == 0 {
                (w / 0x100) as u8
            } else {
                (w % 0x100) as u8
            }
        })
}

/// The normalized source of a program: each instruction rendered, one per
/// line.
pub open spec fn program_text(insts: Seq<(Seq<char>, Seq<u16>)>) -> Seq<char> {
    join_lines(
        insts.map_values(|inst: (Seq<char>, Seq<u16>)| render_line_spec(inst.0, inst.1)),
    )
}

/// Assembling the rendered lines of well-formed instructions yields exactly
/// their packed words.
proof fn lemma_assemble_lines(insts: Seq<(Seq<char>, Seq<u16>)>, number: int)
    requires
        forall|i: int|
            0 <= i < insts.len() ==> valid_instruction(
                (#[trigger] insts[i]).0,
                insts[i].1,
            ),
    ensures
        assemble_rec(
            insts.map_values(|inst: (Seq<char>, Seq<u16>)| render_line_spec(inst.0, inst.1)),
            number,
        ) == Ok::<Seq<u8>, (int, Seq<char>, AsmErrorKind)>(program_bytes(insts)),
    decreases insts.len(),
{
    let lines = insts.map_values(
        |inst: (Seq<char>, Seq<u16>)| render_line_spec(inst.0, inst.1),
    );
    if insts.len() == 0 {
        assert(program_bytes(insts) =~= Seq::<u8>::empty());
        assert(lines =~= Seq::<Seq<char>>::empty());
    } else {
        let name = insts[0].0;
        let args = insts[0].1;
        let line = lines[0];
        assert(line == render_line_spec(name, args));
        lemma_render_plain(name, args);
        assert(strip_cr(line) == line);
        lemma_codec_round_trip(name, args);
        assert(crate::opcode::parse_line_spec(line) == Some((name, args)));
        assert(args.take(crate::opcode::arity(name)) =~= args);
        assert(word_of_instruction(name, args) == Ok::<u16, AsmErrorKind>(
            encode_word_spec(name, args),
        ));
        lemma_assemble_lines(insts.drop_first(), number + 1);
        assert(lines.drop_first() =~= insts.drop_first().map_values(
            |inst: (Seq<char>, Seq<u16>)| render_line_spec(inst.0, inst.1),
        ));
        let w = encode_word_spec(name, args);
        assert forall|j: int| 0 <= j < program_bytes(insts).len() implies #[trigger] program_bytes(
            insts,
        )[j] == (seq![(w / 0x100) as u8, (w % 0x100) as u8] + program_bytes(insts.drop_first()))[j] by {
            if j >= 2 {
                vstd::arithmetic::div_mod::lemma_fundamental_div_mod_converse_div(
                    j,
                    2,
                    (j - 2) / 2 + 1,
                    (j - 2) % 2,
                );
                vstd::arithmetic::div_mod::lemma_fundamental_div_mod_converse_mod(
                    j,
                    2,
                    (j - 2) / 2 + 1,
                    (j - 2) % 2,
                );
                vstd::arithmetic::div_mod::lemma_fundamental_div_mod(j - 2, 2);
                vstd::arithmetic::div_mod::lemma_mod_bound(j - 2, 2);
                assert(insts.drop_first()[(j - 2) / 2] == insts[j / 2]);
            }
        }
        assert(program_bytes(insts) =~= seq![(w / 0x100) as u8, (w % 0x100) as u8]
            + program_bytes(insts.drop_first()));
    }
}

/// The whole-program round trip.  For any program of well-formed
/// instructions: disassembling its binary reproduces its normalized source
/// line for line, and assembling that source reproduces the binary byte for
/// byte.
pub proof fn lemma_program_round_trip(insts: Seq<(Seq<char>, Seq<u16>)>)
    requires
        insts.len() >= 1,
        forall|i: int|
            0 <= i < insts.len() ==> valid_instruction(
                (#[trigger] insts[i]).0,
                insts[i].1,
            ),
    ensures
        disassemble_spec(program_bytes(insts)) == program_text(insts),
        assemble_spec(program_text(insts)) == Ok::<Seq<u8>, (int, Seq<char>, AsmErrorKind)>(
            program_bytes(insts),
        ),
{
    let bytes = program_bytes(insts);
    let lines = insts.map_values(
        |inst: (Seq<char>, Seq<u16>)| render_line_spec(inst.0, inst.1),
    );

    // each pair of bytes decodes back to its instruction's rendered line
    assert(bytes.len() == 2 * insts.len());
    assert forall|i: int| 0 <= i < insts.len() implies #[trigger] decoded_lines(bytes)[i]
        == lines[i] by {
        let w = encode_word_spec(insts[i].0, insts[i].1);
        vstd::arithmetic::div_mod::lemma_fundamental_div_mod_converse_div(2 * i, 2, i, 0);
        vstd::arithmetic::div_mod::lemma_fundamental_div_mod_converse_mod(2 * i, 2, i, 0);
        vstd::arithmetic::div_mod::lemma_fundamental_div_mod_converse_div(2 * i + 1, 2, i, 1);
        vstd::arithmetic::div_mod::lemma_fundamental_div_mod_converse_mod(2 * i + 1, 2, i, 1);
        assert(bytes[2 * i] == (w / 0x100) as u8);
        assert(bytes[2 * i + 1] == (w % 0x100) as u8);
        lemma_codec_round_trip(insts[i].0, insts[i].1);
        vstd::arithmetic::div_mod::lemma_fundamental_div_mod(w as int, 0x100);
        vstd::arithmetic::div_mod::lemma_mod_bound(w as int, 0x100);
        assert((bytes[2 * i] * 0x100 + bytes[2 * i + 1]) as u16 == w);
    }
    vstd::arithmetic::div_mod::lemma_fundamental_div_mod_converse_div(
        bytes.len() as int,
        2,
        insts.len() as int,
        0,
    );
    assert(decoded_lines(bytes) =~= lines);

    // the rendered lines hold no newline, so splitting the joined text gives
    // them back
    assert forall|i: int, j: int|
        0 <= i < lines.len() && 0 <= j < lines[i].len() implies #[trigger] lines[i][j]
        != '\n' by {
        lemma_render_plain(insts[i].0, insts[i].1);
    }
    lemma_split_join(lines);
    lemma_assemble_lines(insts, 1);
}

/// The high nibble of a byte.
pub fn _x0(byte: u8) -> (r: u8)
    ensures
        r == byte / 16,
{
    proof {
        assert(byte >> 4 & 15 == byte / 16) by (bit_vector);
    }
    byte >> 4 & 15
}

/// The low nibble of a byte.
pub fn _0x(byte: u8) -> (r: u8)
    ensures
        r == byte % 16,
{
    proof {
        assert(byte & 15 == byte % 16) by (bit_vector);
    }
    byte & 15
}

/// The 12-bit address held in the low nibble of the first byte and the whole
/// second byte.
pub fn _0xxx(byte1: u8, byte2: u8) -> (r: u16)
    ensures
        r == (byte1 % 16) * 0x100 + byte2,
{
    proof {
        assert(((byte1 & 15) as u16) << 8 | byte2 as u16 == (byte1 % 16) * 0x100
            + byte2) by (bit_vector);
    }
    ((byte1 & 15) as u16) << 8 | byte2 as u16
}

/// How the fields a word decodes by relate to the word's two bytes.
proof fn lemma_byte_fields(b1: u8, b2: u8)
    ensures
        ({
            let w = b1 * 0x100 + b2;
            &&& w / 0x1000 == b1 / 16
            &&& w / 0x100 % 16 == b1 % 16
            &&& w / 16 % 16 == b2 / 16
            &&& w % 16 == b2 % 16
            &&& w % 0x100 == b2
            &&& w % 0x1000 == (b1 % 16) * 0x100 + b2
            &&& 0 <= w < 0x10000
        }),
{
    vstd::arithmetic::div_mod::lemma_fundamental_div_mod(b1 as int, 16);
    vstd::arithmetic::div_mod::lemma_fundamental_div_mod(b2 as int, 16);
    vstd::arithmetic::div_mod::lemma_mod_bound(b1 as int, 16);
    vstd::arithmetic::div_mod::lemma_mod_bound(b2 as int, 16);
    lemma_word_parts(b1 as int / 16, b1 as int % 16, b2 as int / 16, b2 as int % 16);
}

/// The given text, then the rendering of one operand.
fn render1(prefix: &'static str, a0: u16) -> (r: String)
    ensures
        r@ == prefix@ + dec_digits(a0 as nat),
{
    let mut s = String::new();
    s.append(prefix);
    let d = u16_to_dec(a0);
    s.append(d.as_str());
    s
}

/// The given text, then the rendering of two operands.
fn render2(prefix: &'static str, a0: u16, a1: u16) -> (r: String)
    ensures
        r@ == prefix@ + dec_digits(a0 as nat) + seq![',', ' '] + dec_digits(a1 as nat),
{
    let mut s = String::new();
    s.append(prefix);
    let d0 = u16_to_dec(a0);
    s.append(d0.as_str());
    s.append(", ");
    let d1 = u16_to_dec(a1);
    s.append(d1.as_str());
    proof {
        reveal_strlit(", ");
        assert(s@ =~= prefix@ + dec_digits(a0 as nat) + seq![',', ' '] + dec_digits(a1 as nat));
    }
    s
}

/// The given text, then the rendering of three operands.
fn render3(prefix: &'static str, a0: u16, a1: u16, a2: u16) -> (r: String)
    ensures
        r@ == prefix@ + dec_digits(a0 as nat) + seq![',', ' '] + dec_digits(a1 as nat) + seq![
            ',',
            ' ',
        ] + dec_digits(a2 as nat),
{
    let mut s = String::new();
    s.append(prefix);
    let d0 = u16_to_dec(a0);
    s.append(d0.as_str());
    s.append(", ");
    let d1 = u16_to_dec(a1);
    s.append(d1.as_str());
    s.append(", ");
    let d2 = u16_to_dec(a2);
    s.append(d2.as_str());
    proof {
        reveal_strlit(", ");
        assert(s@ =~= prefix@ + dec_digits(a0 as nat) + seq![',', ' '] + dec_digits(a1 as nat)
            + seq![',', ' '] + dec_digits(a2 as nat));
    }
    s
}

/// The operand text of a two-operand instruction, spelled out.
proof fn lemma_args2(a0: u16, a1: u16)
    ensures
        args_text(seq![a0, a1]) =~= dec_digits(a0 as nat) + seq![',', ' '] + dec_digits(a1 as nat),
{
    assert(seq![a0, a1].drop_first() =~= seq![a1]);
    assert(args_text(seq![a1]) == dec_digits(a1 as nat));
}

/// The operand text of a three-operand instruction, spelled out.
proof fn lemma_args3(a0: u16, a1: u16, a2: u16)
    ensures
        args_text(seq![a0, a1, a2]) =~= dec_digits(a0 as nat) + seq![',', ' '] + dec_digits(
            a1 as nat,
        ) + seq![',', ' '] + dec_digits(a2 as nat),
{
    assert(seq![a0, a1, a2].drop_first() =~= seq![a1, a2]);
    lemma_args2(a1, a2);
    assert(args_text(seq![a0, a1, a2]) == dec_digits(a0 as nat) + seq![',', ' '] + args_text(
        seq![a1, a2],
    ));
}

/// The text line one instruction word decodes to, taking the word as its two
/// big-endian bytes; the exact decoding, unknown words included, is
/// `decode_line_spec`.
#[verifier::rlimit(100)]
pub fn decode(byte1: u8, byte2: u8) -> (r: String)
    ensures
        r@ == decode_line_spec(byte1, byte2),
{
    proof {
        lemma_byte_fields(byte1, byte2);
    }
    let bits1 = _x0(byte1);
    let x = _0x(byte1) as u16;
    let y = _x0(byte2) as u16;
    let f4 = _0x(byte2) as u16;
    let nn = byte2 as u16;
    let nnn = _0xxx(byte1, byte2);
    if bits1 == 0x0 {
        if byte2 == 0xE0 {
            String::from_str("CLS")
        } else if byte2 == 0xEE {
            String::from_str("RET")
        } else {
            String::new()
        }
    } else if bits1 == 0x1 {
        let s = render1("JP ", nnn);
        proof {
            reveal_strlit("JP ");
            reveal_strlit("JP");
            assert("JP "@ =~= "JP"@ + seq![' ']);
            assert(s@ =~= render_line_spec("JP"@, seq![nnn]));
        }
        s
    } else if bits1 == 0x2 {
        let s = render1("CALL ", nnn);
        proof {
            reveal_strlit("CALL ");
            reveal_strlit("CALL");
            assert("CALL "@ =~= "CALL"@ + seq![' ']);
            assert(s@ =~= render_line_spec("CALL"@, seq![nnn]));
        }
        s
    } else if bits1 == 0x3 {
        let s = render2("SEB ", x, nn);
        proof {
            reveal_strlit("SEB ");
            reveal_strlit("SEB");
            assert("SEB "@ =~= "SEB"@ + seq![' ']);
            lemma_args2(x, nn);
            assert(s@ =~= render_line_spec("SEB"@, seq![x, nn]));
        }
        s
    } else if bits1 == 0x4 {
        let s = render2("SNEB ", x, nn);
        proof {
            reveal_strlit("SNEB ");
            reveal_strlit("SNEB");
            assert("SNEB "@ =~= "SNEB"@ + seq![' ']);
            lemma_args2(x, nn);
            assert(s@ =~= render_line_spec("SNEB"@, seq![x, nn]));
        }
        s
    } else if bits1 == 0x5 {
        let s = render2("SE ", x, y);
        proof {
            reveal_strlit("SE ");
            reveal_strlit("SE");
            assert("SE "@ =~= "SE"@ + seq![' ']);
            lemma_args2(x, y);
            assert(s@ =~= render_line_spec("SE"@, seq![x, y]));
        }
        s
    } else if bits1 == 0x6 {
        let s = render2("LDB ", x, nn);
        proof {
            reveal_strlit("LDB ");
            reveal_strlit("LDB");
            assert("LDB "@ =~= "LDB"@ + seq![' ']);
            lemma_args2(x, nn);
            assert(s@ =~= render_line_spec("LDB"@, seq![x, nn]));
        }
        s
    } else if bits1 == 0x7 {
        let s = render2("ADDB ", x, nn);
        proof {
            reveal_strlit("ADDB ");
            reveal_strlit("ADDB");
            assert("ADDB "@ =~= "ADDB"@ + seq![' ']);
            lemma_args2(x, nn);
            assert(s@ =~= render_line_spec("ADDB"@, seq![x, nn]));
        }
        s
    } else if bits1 == 0x8 {
        let f4b = _0x(byte2);
        if f4b == 0x0 {
            let s = render2("LD ", x, y);
            proof {
                reveal_strlit("LD ");
                reveal_strlit("LD");
                assert("LD "@ =~= "LD"@ + seq![' ']);
                lemma_args2(x, y);
                assert(s@ =~= render_line_spec("LD"@, seq![x, y]));
            }
            s
        } else if f4b == 0x1 {
            let s = render2("OR ", x, y);
            proof {
                reveal_strlit("OR ");
                reveal_strlit("OR");
                assert("OR "@ =~= "OR"@ + seq![' ']);
                lemma_args2(x, y);
                assert(s@ =~= render_line_spec("OR"@, seq![x, y]));
            }
            s
        } else if f4b == 0x2 {
            let s = render2("AND ", x, y);
            proof {
                reveal_strlit("AND ");
                reveal_strlit("AND");
                assert("AND "@ =~= "AND"@ + seq![' ']);
                lemma_args2(x, y);
                assert(s@ =~= render_line_spec("AND"@, seq![x, y]));
            }
            s
        } else if f4b == 0x3 {
            let s = render2("XOR ", x, y);
            proof {
                reveal_strlit("XOR ");
                reveal_strlit("XOR");
                assert("XOR "@ =~= "XOR"@ + seq![' ']);
                lemma_args2(x, y);
                assert(s@ =~= render_line_spec("XOR"@, seq![x, y]));
            }
            s
        } else if f4b == 0x4 {
            let s = render2("ADD ", x, y);
            proof {
                reveal_strlit("ADD ");
                reveal_strlit("ADD");
                assert("ADD "@ =~= "ADD"@ + seq![' ']);
                lemma_args2(x, y);
                assert(s@ =~= render_line_spec("ADD"@, seq![x, y]));
            }
            s
        } else if f4b == 0x5 {
            let s = render2("SUB ", x, y);
            proof {
                reveal_strlit("SUB ");
                reveal_strlit("SUB");
                assert("SUB "@ =~= "SUB"@ + seq![' ']);
                lemma_args2(x, y);
                assert(s@ =~= render_line_spec("SUB"@, seq![x, y]));
            }
            s
        } else if f4b == 0x6 {
            let s = render2("SHR ", x, y);
            proof {
                reveal_strlit("SHR ");
                reveal_strlit("SHR");
                assert("SHR "@ =~= "SHR"@ + seq![' ']);
                lemma_args2(x, y);
                assert(s@ =~= render_line_spec("SHR"@, seq![x, y]));
            }
            s
        } else if f4b == 0x7 {
            let s = render2("SUBN ", x, y);
            proof {
                reveal_strlit("SUBN ");
                reveal_strlit("SUBN");
                assert("SUBN "@ =~= "SUBN"@ + seq![' ']);
                lemma_args2(x, y);
                assert(s@ =~= render_line_spec("SUBN"@, seq![x, y]));
            }
            s
        } else if f4b == 0xE {
            let s = render2("SHL ", x, y);
            proof {
                reveal_strlit("SHL ");
                reveal_strlit("SHL");
                assert("SHL "@ =~= "SHL"@ + seq![' ']);
                lemma_args2(x, y);
                assert(s@ =~= render_line_spec("SHL"@, seq![x, y]));
            }
            s
        } else {
            String::new()
        }
    } else if bits1 == 0x9 {
        let s = render2("SNE ", x, y);
        proof {
            reveal_strlit("SNE ");
            reveal_strlit("SNE");
            assert("SNE "@ =~= "SNE"@ + seq![' ']);
            lemma_args2(x, y);
            assert(s@ =~= render_line_spec("SNE"@, seq![x, y]));
        }
        s
    } else if bits1 == 0xA {
        let s = render1("LDI ", nnn);
        proof {
            reveal_strlit("LDI ");
            reveal_strlit("LDI");
            assert("LDI "@ =~= "LDI"@ + seq![' ']);
            assert(s@ =~= render_line_spec("LDI"@, seq![nnn]));
        }
        s
    } else if bits1 == 0xB {
        let s = render1("JPP ", nnn);
        proof {
            reveal_strlit("JPP ");
            reveal_strlit("JPP");
            assert("JPP "@ =~= "JPP"@ + seq![' ']);
            assert(s@ =~= render_line_spec("JPP"@, seq![nnn]));
        }
        s
    } else if bits1 == 0xC {
        let s = render2("RND ", x, nn);
        proof {
            reveal_strlit("RND ");
            reveal_strlit("RND");
            assert("RND "@ =~= "RND"@ + seq![' ']);
            lemma_args2(x, nn);
            assert(s@ =~= render_line_spec("RND"@, seq![x, nn]));
        }
        s
    } else if bits1 == 0xD {
        let s = render3("DRW ", x, y, f4);
        proof {
            reveal_strlit("DRW ");
            reveal_strlit("DRW");
            assert("DRW "@ =~= "DRW"@ + seq![' ']);
            lemma_args3(x, y, f4);
            assert(s@ =~= render_line_spec("DRW"@, seq![x, y, f4]));
        }
        s
    } else if bits1 == 0xE {
        if byte2 == 0x9E {
            let s = render1("SKP ", x);
            proof {
                reveal_strlit("SKP ");
                reveal_strlit("SKP");
                assert("SKP "@ =~= "SKP"@ + seq![' ']);
                assert(s@ =~= render_line_spec("SKP"@, seq![x]));
            }
            s
        } else if byte2 == 0xA1 {
            let s = render1("SKNP ", x);
            proof {
                reveal_strlit("SKNP ");
                reveal_strlit("SKNP");
                assert("SKNP "@ =~= "SKNP"@ + seq![' ']);
                assert(s@ =~= render_line_spec("SKNP"@, seq![x]));
            }
            s
        } else {
            String::new()
        }
    } else {
        if byte2 == 0x07 {
            let s = render1("GDT ", x);
            proof {
                reveal_strlit("GDT ");
                reveal_strlit("GDT");
                assert("GDT "@ =~= "GDT"@ + seq![' ']);
                assert(s@ =~= render_line_spec("GDT"@, seq![x]));
            }
            s
        } else if byte2 == 0x0A {
            let s = render1("GK ", x);
            proof {
                reveal_strlit("GK ");
                reveal_strlit("GK");
                assert("GK "@ =~= "GK"@ + seq![' ']);
                assert(s@ =~= render_line_spec("GK"@, seq![x]));
            }
            s
        } else if byte2 == 0x15 {
            let s = render1("SDT ", x);
            proof {
                reveal_strlit("SDT ");
                reveal_strlit("SDT");
                assert("SDT "@ =~= "SDT"@ + seq![' ']);
                assert(s@ =~= render_line_spec("SDT"@, seq![x]));
            }
            s
        } else if byte2 == 0x18 {
            let s = render1("SST ", x);
            proof {
                reveal_strlit("SST ");
                reveal_strlit("SST");
                assert("SST "@ =~= "SST"@ + seq![' ']);
                assert(s@ =~= render_line_spec("SST"@, seq![x]));
            }
            s
        } else if byte2 == 0x1E {
            let s = render1("ADDI ", x);
            proof {
                reveal_strlit("ADDI ");
                reveal_strlit("ADDI");
                assert("ADDI "@ =~= "ADDI"@ + seq![' ']);
                assert(s@ =~= render_line_spec("ADDI"@, seq![x]));
            }
            s
        } else if byte2 == 0x29 {
            let s = render1("FONT ", x);
            proof {
                reveal_strlit("FONT ");
                reveal_strlit("FONT");
                assert("FONT "@ =~= "FONT"@ + seq![' ']);
                assert(s@ =~= render_line_spec("FONT"@, seq![x]));
            }
            s
        } else if byte2 == 0x33 {
            let s = render1("BCD ", x);
            proof {
                reveal_strlit("BCD ");
                reveal_strlit("BCD");
                assert("BCD "@ =~= "BCD"@ + seq![' ']);
                assert(s@ =~= render_line_spec("BCD"@, seq![x]));
            }
            s
        } else if byte2 == 0x55 {
            let s = render1("DUMP ", x);
            proof {
                reveal_strlit("DUMP ");
                reveal_strlit("DUMP");
                assert("DUMP "@ =~= "DUMP"@ + seq![' ']);
                assert(s@ =~= render_line_spec("DUMP"@, seq![x]));
            }
            s
        } else if byte2 == 0x65 {
            let s = render1("LOAD ", x);
            proof {
                reveal_strlit("LOAD ");
                reveal_strlit("LOAD");
                assert("LOAD "@ =~= "LOAD"@ + seq![' ']);
                assert(s@ =~= render_line_spec("LOAD"@, seq![x]));
            }
            s
        } else {
            String::new()
        }
    }
}

/// The text of a whole binary: one line per consecutive 2-byte word, lines
/// joined by newlines, a trailing odd byte ignored, per `disassemble_spec`.
pub fn disassemble(bytes: Vec<u8>) -> (r: String)
    ensures
        r@ == disassemble_spec(bytes@),
{
    let mut out = String::new();
    let mut i: usize = 0;
    let mut k: usize = 0;
    let n = bytes.len();
    proof {
        assert(decoded_lines(bytes@).take(0) =~= Seq::<Seq<char>>::empty());
    }
    while i + 1 < n
        invariant
            n == bytes@.len(),
            i == 2 * k,
            i <= n + 1,
            k <= decoded_lines(bytes@).len(),
            out@ == join_lines(decoded_lines(bytes@).take(k as int)),
        decreases n - i,
    {
        proof {
            vstd::arithmetic::div_mod::lemma_fundamental_div_mod(bytes@.len() as int, 2);
        }
        let line = decode(bytes[i], bytes[i + 1]);
        if i > 0 {
            out.append("\n");
        }
        out.append(line.as_str());
        proof {
            reveal_strlit("\n");
            let m = k as int;
            let lines = decoded_lines(bytes@);
            assert(lines.take(m + 1).drop_last() =~= lines.take(m));
            assert(lines.take(m + 1).last() == lines[m]);
            assert(lines[m] == decode_line_spec(bytes@[2 * m], bytes@[2 * m + 1]));
            assert(out@ =~= join_lines(lines.take(m + 1)));
        }
        i = i + 2;
        k = k + 1;
    }
    proof {
        let lines = decoded_lines(bytes@);
        vstd::arithmetic::div_mod::lemma_fundamental_div_mod(bytes@.len() as int, 2);
        assert(k as int == bytes@.len() as int / 2);
        assert(lines.take(k as int) =~= lines);
    }
    out
}

} // verus!
