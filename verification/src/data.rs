//! Built-in data: the 16-glyph font table every machine carries at the
//! bottom of memory, and a small built-in demonstration program.

use vstd::prelude::*;

verus! {

/// Size of the font table in bytes: 16 glyphs of 5 bytes each.
pub const FONTSET_SIZE: usize = 80;

/// The font table as a sequence: glyph `g` occupies bytes `5*g .. 5*g+5`.
pub open spec fn fontset_spec() -> Seq<u8> {
    seq![
        0xF0u8, 0x90, 0x90, 0x90, 0xF0, // 0
        0x20, 0x60, 0x20, 0x20, 0x70, // 1
        0xF0, 0x10, 0xF0, 0x80, 0xF0, // 2
        0xF0, 0x10, 0xF0, 0x10, 0xF0, // 3
        0x90, 0x90, 0xF0, 0x10, 0x10, // 4
        0xF0, 0x80, 0xF0, 0x10, 0xF0, // 5
        0xF0, 0x80, 0xF0, 0x90, 0xF0, // 6
        0xF0, 0x10, 0x20, 0x40, 0x40, // 7
        0xF0, 0x90, 0xF0, 0x90, 0xF0, // 8
        0xF0, 0x90, 0xF0, 0x10, 0xF0, // 9
        0xF0, 0x90, 0xF0, 0x90, 0x90, // A
        0xE0, 0x90, 0xE0, 0x90, 0xE0, // B
        0xF0, 0x80, 0x80, 0x80, 0xF0, // C
        0xE0, 0x90, 0x90, 0x90, 0xE0, // D
        0xF0, 0x80, 0xF0, 0x80, 0xF0, // E
        0xF0, 0x80, 0xF0, 0x80, 0x80, // F
    ]
}

/// The font table, written into memory below the program area at
/// construction.
pub fn fontset() -> (r: Vec<u8>)
    ensures
        r@ == fontset_spec(),
        r@.len() == FONTSET_SIZE,
{
    let r: Vec<u8> = vec![
        0xF0u8, 0x90, 0x90, 0x90, 0xF0, // 0
        0x20, 0x60, 0x20, 0x20, 0x70, // 1
        0xF0, 0x10, 0xF0, 0x80, 0xF0, // 2
        0xF0, 0x10, 0xF0, 0x10, 0xF0, // 3
        0x90, 0x90, 0xF0, 0x10, 0x10, // 4
        0xF0, 0x80, 0xF0, 0x10, 0xF0, // 5
        0xF0, 0x80, 0xF0, 0x90, 0xF0, // 6
        0xF0, 0x10, 0x20, 0x40, 0x40, // 7
        0xF0, 0x90, 0xF0, 0x90, 0xF0, // 8
        0xF0, 0x90, 0xF0, 0x10, 0xF0, // 9
        0xF0, 0x90, 0xF0, 0x90, 0x90, // A
        0xE0, 0x90, 0xE0, 0x90, 0xE0, // B
        0xF0, 0x80, 0x80, 0x80, 0xF0, // C
        0xE0, 0x90, 0x90, 0x90, 0xE0, // D
        0xF0, 0x80, 0xF0, 0x80, 0xF0, // E
        0xF0, 0x80, 0xF0, 0x80, 0x80, // F
    ];
    proof {
        assert(r@ =~= fontset_spec());
    }
    r
}

/// The built-in demonstration program as a sequence.
pub open spec fn test_spec() -> Seq<u8> {
    seq![
        0x00u8, 0xE0, // clear the screen
        0x60, 0x02, // V0 = 2
        0x61, 0x02, // V1 = 2
        0xEA, 0xA1, // skip if the key in the 0xA slot is not pressed
        0x63, 0x0A, // V3 = 10
        0xEB, 0xA1, // skip if the key in the 0xB slot is not pressed
        0x63, 0x0B, // V3 = 11
        0xF3, 0x29, // point the index register at the glyph for V3
        0xD0, 0x15, // draw that glyph at (V0, V1), five rows tall
        0x12, 0x00, // jump back to the start of the program
    ]
}

/// A built-in program that draws a glyph chosen by the pressed key, usable
/// without loading any file.
pub fn test() -> (r: Vec<u8>)
    ensures
        r@ == test_spec(),
{
    let r: Vec<u8> = vec![
        0x00u8, 0xE0, 0x60, 0x02, 0x61, 0x02, 0xEA, 0xA1, 0x63, 0x0A, 0xEB, 0xA1, 0x63, 0x0B,
        0xF3, 0x29, 0xD0, 0x15, 0x12, 0x00,
    ];
    proof {
        assert(r@ =~= test_spec());
    }
    r
}

} // verus!
