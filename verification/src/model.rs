//! The mathematical model of the machine.
//!
//! `MState` mirrors every machine resource as a mathematical value; all
//! contracts of the library are stated over it. `StepOut` is the outcome of
//! executing one opcode: the state left behind and the fault, if any.

use vstd::prelude::*;
use crate::conf::{
    FLAG_COUNT, FONTSET_SIZE, HI_RES_HEIGHT, HI_RES_WIDTH, KEYS_COUNT, MAX_SCREEN_SIZE, RAM_SIZE,
    REGISTER_COUNT, SCREEN_HEIGHT, SCREEN_WIDTH, STACK_SIZE, START_ADDR, spec_fontset,
};
use crate::error::VmError;

verus! {

/// The canonical record of all machine resources, as mathematical values.
pub struct MState {
    pub pc: u16,
    pub memory: Seq<u8>,
    pub screen: Seq<bool>,
    pub current_width: usize,
    pub current_height: usize,
    pub registers: Seq<u8>,
    pub i_register: u16,
    pub sp: u16,
    pub stack: Seq<u16>,
    pub keys: Seq<bool>,
    pub delay_timer: u8,
    pub sound_timer: u8,
    pub rpl_flags: Seq<u8>,
    pub plane_1: Seq<bool>,
    pub plane_2: Seq<bool>,
    pub plane_mask: u8,
}

/// Outcome of one opcode: the machine state left behind — partially updated
/// when a fault aborted the opcode midway — and the fault, if one occurred.
pub struct StepOut {
    pub m: MState,
    pub err: Option<VmError>,
}

/// A completed opcode.
pub open spec fn step_ok(m: MState) -> StepOut {
    StepOut { m, err: None }
}

/// An opcode aborted by a fault, leaving state `m` behind.
pub open spec fn step_err(m: MState, e: VmError) -> StepOut {
    StepOut { m, err: Some(e) }
}

/// Well-formedness: every resource has its fixed size, the stack pointer
/// stays within the stack, the plane mask has two bits, and the viewport is
/// one of the two supported resolutions.
pub open spec fn wf_state(m: MState) -> bool {
    &&& m.memory.len() == RAM_SIZE
    &&& m.screen.len() == MAX_SCREEN_SIZE
    &&& m.registers.len() == REGISTER_COUNT
    &&& m.stack.len() == STACK_SIZE
    &&& m.keys.len() == KEYS_COUNT
    &&& m.rpl_flags.len() == FLAG_COUNT
    &&& m.plane_1.len() == MAX_SCREEN_SIZE
    &&& m.plane_2.len() == MAX_SCREEN_SIZE
    &&& m.plane_mask < 4
    &&& m.sp <= STACK_SIZE
    &&& ((m.current_width == SCREEN_WIDTH && m.current_height == SCREEN_HEIGHT) || (
    m.current_width == HI_RES_WIDTH && m.current_height == HI_RES_HEIGHT))
}

/// The machine at construction and after every reset: the font embedded at
/// the bottom of memory, the low-resolution viewport, everything else zero.
pub open spec fn init_mstate() -> MState {
    MState {
        pc: START_ADDR,
        memory: Seq::new(
            RAM_SIZE as nat,
            |i: int| if i < FONTSET_SIZE { spec_fontset()[i] } else { 0u8 },
        ),
        screen: Seq::new(MAX_SCREEN_SIZE as nat, |i: int| false),
        current_width: SCREEN_WIDTH,
        current_height: SCREEN_HEIGHT,
        registers: Seq::new(REGISTER_COUNT as nat, |i: int| 0u8),
        i_register: 0,
        sp: 0,
        stack: Seq::new(STACK_SIZE as nat, |i: int| 0u16),
        keys: Seq::new(KEYS_COUNT as nat, |i: int| false),
        delay_timer: 0,
        sound_timer: 0,
        rpl_flags: Seq::new(FLAG_COUNT as nat, |i: int| 0u8),
        plane_1: Seq::new(MAX_SCREEN_SIZE as nat, |i: int| false),
        plane_2: Seq::new(MAX_SCREEN_SIZE as nat, |i: int| false),
        plane_mask: 0,
    }
}

/// Bounds of the decoded fields of an opcode.
pub proof fn lemma_nibbles(op: u16)
    by (bit_vector)
    ensures
        (op & 0xF000) >> 12 < 16,
        ((op & 0x0F00) >> 8) < 16,
        ((op & 0x00F0) >> 4) < 16,
        (op & 0x000F) < 16,
        (op & 0xFF) < 256,
        (op & 0xFFF) < 4096,
{
}

/// The `Result` that reports the fault of a step outcome, if any.
pub open spec fn res_of(e: Option<VmError>) -> Result<(), VmError> {
    match e {
        Option::None => Ok(()),
        Option::Some(er) => Err(er),
    }
}

/// `m` with register `x` set to `v`.
pub open spec fn upd_reg(m: MState, x: int, v: u8) -> MState {
    MState { registers: m.registers.update(x, v), ..m }
}

/// `m` with the program counter set to `pc`.
pub open spec fn with_pc(m: MState, pc: u16) -> MState {
    MState { pc, ..m }
}

/// `m` with the next instruction skipped when `cond` holds.
pub open spec fn skip_if(m: MState, cond: bool) -> MState {
    if cond {
        with_pc(m, (m.pc + 2) as u16)
    } else {
        m
    }
}

} // verus!
