//! The machine-state record handed to opcode handlers, and the capability
//! interface that every opcode extension satisfies.

use vstd::prelude::*;
use crate::conf::{
    FLAG_COUNT, HI_RES_HEIGHT, HI_RES_WIDTH, KEYS_COUNT, MAX_SCREEN_SIZE, RAM_SIZE, REGISTER_COUNT,
    SCREEN_HEIGHT, SCREEN_WIDTH, STACK_SIZE,
};
use crate::error::VmError;
use crate::model::{MState, StepOut, wf_state};

verus! {

/// All machine resources. Extension handlers receive a transient exclusive
/// mutable borrow of this record, scoped to a single call, so only one
/// party mutates machine state per opcode.
pub struct VmContext {
    pub pc: u16,
    pub memory: Vec<u8>,
    pub screen: Vec<bool>,
    pub current_width: usize,
    pub current_height: usize,
    pub registers: Vec<u8>,
    pub i_register: u16,
    pub sp: u16,
    pub stack: Vec<u16>,
    pub keys: Vec<bool>,
    pub delay_timer: u8,
    pub sound_timer: u8,
    pub rpl_flags: Vec<u8>,
    pub plane_1: Vec<bool>,
    pub plane_2: Vec<bool>,
    pub plane_mask: u8,
}

impl View for VmContext {
    type V = MState;

    open spec fn view(&self) -> MState {
        MState {
            pc: self.pc,
            memory: self.memory@,
            screen: self.screen@,
            current_width: self.current_width,
            current_height: self.current_height,
            registers: self.registers@,
            i_register: self.i_register,
            sp: self.sp,
            stack: self.stack@,
            keys: self.keys@,
            delay_timer: self.delay_timer,
            sound_timer: self.sound_timer,
            rpl_flags: self.rpl_flags@,
            plane_1: self.plane_1@,
            plane_2: self.plane_2@,
            plane_mask: self.plane_mask,
        }
    }
}

impl VmContext {
    /// The record models a well-formed machine state.
    pub open spec fn wf(&self) -> bool {
        wf_state(self@)
    }
}

/// Relates one `handle_instruction` call to the handler's specification
/// `h`: a declined opcode returns `Ok(false)` and leaves the state alone; a
/// consumed one returns `Ok(true)` with the specified state; a fault returns
/// the specified error with the state the fault left behind.
pub open spec fn handle_matches(
    pre: MState,
    post: MState,
    r: Result<bool, VmError>,
    h: Option<StepOut>,
) -> bool {
    match h {
        Option::None => r == Ok::<bool, VmError>(false) && post == pre,
        Option::Some(so) => post == so.m && match so.err {
            Option::None => r == Ok::<bool, VmError>(true),
            Option::Some(e) => r == Err::<bool, VmError>(e),
        },
    }
}

/// An opcode extension: a named, activatable interceptor that is offered
/// every opcode before the base table runs.
///
/// `spec_handle` is the extension's entire specification: `None` means the
/// opcode is declined (an inactive extension declines everything), and
/// `Some` gives the state and outcome when it is consumed. The executable
/// `handle_instruction` is bound to it exactly.
pub trait Extension: Sized {
    /// Whether the extension currently intercepts opcodes.
    spec fn spec_active(&self) -> bool;

    /// The extension's full opcode semantics.
    spec fn spec_handle(&self, m: MState, op: u16) -> Option<StepOut>;

    /// The extension's stable name.
    spec fn spec_name(&self) -> Seq<char>;

    /// The name of the extension.
    fn name(&self) -> (r: &'static str)
        ensures
            r@ == self.spec_name(),
    ;

    /// Checks if the extension is currently enabled.
    fn is_active(&self) -> (r: bool)
        ensures
            r == self.spec_active(),
    ;

    /// Hook for initialization, called once after the VM creation.
    fn initialize(&self, ctx: &mut VmContext)
        requires
            old(ctx).wf(),
        ensures
            final(ctx).wf(),
    ;

    /// Attempts to execute an instruction. Returns `Ok(true)` if the opcode
    /// was handled and execution of this instruction should stop, `Ok(false)`
    /// if it was not handled (falls through to the next extension or to the
    /// base table), and `Err` on a fatal fault.
    fn handle_instruction(&self, ctx: &mut VmContext, opcode: u16) -> (r: Result<bool, VmError>)
        requires
            old(ctx).wf(),
        ensures
            final(ctx).wf(),
            handle_matches(old(ctx)@, final(ctx)@, r, self.spec_handle(old(ctx)@, opcode)),
    ;
}

} // verus!
