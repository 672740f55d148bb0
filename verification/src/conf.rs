//! Fixed machine resources: memory geometry, register and stack counts,
//! display dimensions, and the embedded hexadecimal font.

use vstd::prelude::*;

verus! {

/// Size of the byte-addressable memory.
pub const RAM_SIZE: usize = 4096;
/// Number of general-purpose 8-bit registers.
pub const REGISTER_COUNT: usize = 16;
/// Capacity of the return-address stack.
pub const STACK_SIZE: usize = 16;
/// Number of keypad keys, one per hexadecimal symbol.
pub const KEYS_COUNT: usize = 16;
/// Width of the low-resolution viewport.
pub const SCREEN_WIDTH: usize = 64;
/// Height of the low-resolution viewport.
pub const SCREEN_HEIGHT: usize = 32;
/// Width of the high-resolution viewport; also the fixed row stride used
/// for every display-buffer index, whatever the active resolution.
pub const HI_RES_WIDTH: usize = 128;
/// Height of the high-resolution viewport.
pub const HI_RES_HEIGHT: usize = 64;
/// Cells in a display buffer sized for the highest resolution.
pub const MAX_SCREEN_SIZE: usize = HI_RES_WIDTH * HI_RES_HEIGHT;
/// Address where program images are loaded and execution starts.
pub const START_ADDR: u16 = 0x200;
/// Bytes taken by the embedded font at the bottom of memory.
pub const FONTSET_SIZE: usize = 80;
/// Slots in the persistent flag-storage bank.
pub const FLAG_COUNT: usize = 8;
/// Base address of the 10-byte-per-glyph large font.
pub const LARGE_FONT_BASE_ADDR: u16 = 80;

/// The 16-glyph, 5-bytes-per-glyph hexadecimal font bitmap.
pub open spec fn spec_fontset() -> Seq<u8> {
    seq![
        0xF0u8, 0x90, 0x90, 0x90, 0xF0,
        0x20, 0x60, 0x20, 0x20, 0x70,
        0xF0, 0x10, 0xF0, 0x80, 0xF0,
        0xF0, 0x10, 0xF0, 0x10, 0xF0,
        0x90, 0x90, 0xF0, 0x10, 0x10,
        0xF0, 0x80, 0xF0, 0x10, 0xF0,
        0xF0, 0x80, 0xF0, 0x90, 0xF0,
        0xF0, 0x10, 0x20, 0x40, 0x40,
        0xF0, 0x90, 0xF0, 0x90, 0xF0,
        0xF0, 0x90, 0xF0, 0x10, 0xF0,
        0xF0, 0x90, 0xF0, 0x90, 0x90,
        0xE0, 0x90, 0xE0, 0x90, 0xE0,
        0xF0, 0x80, 0x80, 0x80, 0xF0,
        0xE0, 0x90, 0x90, 0x90, 0xE0,
        0xF0, 0x80, 0xF0, 0x80, 0xF0,
        0xF0, 0x80, 0xF0, 0x80, 0x80,
    ]
}

/// Builds the font bitmap as a byte vector equal to `spec_fontset`.
pub fn fontset() -> (v: Vec<u8>)
    ensures
        v@ == spec_fontset(),
{
    let v: Vec<u8> = vec![
        0xF0, 0x90, 0x90, 0x90, 0xF0,
        0x20, 0x60, 0x20, 0x20, 0x70,
        0xF0, 0x10, 0xF0, 0x80, 0xF0,
        0xF0, 0x10, 0xF0, 0x10, 0xF0,
        0x90, 0x90, 0xF0, 0x10, 0x10,
        0xF0, 0x80, 0xF0, 0x10, 0xF0,
        0xF0, 0x80, 0xF0, 0x90, 0xF0,
        0xF0, 0x10, 0x20, 0x40, 0x40,
        0xF0, 0x90, 0xF0, 0x90, 0xF0,
        0xF0, 0x90, 0xF0, 0x10, 0xF0,
        0xF0, 0x90, 0xF0, 0x90, 0x90,
        0xE0, 0x90, 0xE0, 0x90, 0xE0,
        0xF0, 0x80, 0x80, 0x80, 0xF0,
        0xE0, 0x90, 0x90, 0x90, 0xE0,
        0xF0, 0x80, 0xF0, 0x80, 0xF0,
        0xF0, 0x80, 0xF0, 0x80, 0x80,
    ];
    proof {
        assert(v@ =~= spec_fontset());
    }
    v
}

} // verus!
