//! The machine state owner and the fetch/decode/execute engine.
//!
//! `base_step` is the functional specification of the canonical opcode
//! table; `dispatch_step` composes it with the registered extensions in
//! order, first acceptance winning. Every public operation of `Chip8VM` is
//! bound to these specifications.

use vstd::prelude::*;
use crate::conf::{
    FLAG_COUNT, FONTSET_SIZE, KEYS_COUNT, MAX_SCREEN_SIZE, RAM_SIZE, REGISTER_COUNT, STACK_SIZE,
    START_ADDR, fontset, spec_fontset,
};
use crate::display::{
    cleared_viewport, draw_rows_buf, draw_sprite_screen, flag_of, viewport_clear,
};
use crate::error::VmError;
use crate::extensions::{Extension, VmContext};
use crate::model::{
    MState, StepOut, init_mstate, lemma_nibbles, res_of, skip_if, step_err, step_ok, upd_reg,
    with_pc,
};
use crate::superchip::SuperChip8;
use crate::xo::XoChip;

verus! {

/// One registered opcode extension. The slot dispatches to the concrete
/// handler it holds; its `spec_handle` is that handler's.
#[derive(Clone, Copy)]
pub enum ExtensionSlot {
    Super(SuperChip8),
    Xo(XoChip),
}

impl Extension for ExtensionSlot {
    open spec fn spec_active(&self) -> bool {
        match self {
            ExtensionSlot::Super(s) => s.spec_active(),
            ExtensionSlot::Xo(x) => x.spec_active(),
        }
    }

    open spec fn spec_handle(&self, m: MState, op: u16) -> Option<StepOut> {
        match self {
            ExtensionSlot::Super(s) => s.spec_handle(m, op),
            ExtensionSlot::Xo(x) => x.spec_handle(m, op),
        }
    }

    open spec fn spec_name(&self) -> Seq<char> {
        match self {
            ExtensionSlot::Super(s) => s.spec_name(),
            ExtensionSlot::Xo(x) => x.spec_name(),
        }
    }

    fn name(&self) -> (r: &'static str) {
        match self {
            ExtensionSlot::Super(s) => s.name(),
            ExtensionSlot::Xo(x) => x.name(),
        }
    }

    fn is_active(&self) -> (r: bool) {
        match self {
            ExtensionSlot::Super(s) => s.is_active(),
            ExtensionSlot::Xo(x) => x.is_active(),
        }
    }

    fn initialize(&self, ctx: &mut VmContext) {
        match self {
            ExtensionSlot::Super(s) => s.initialize(ctx),
            ExtensionSlot::Xo(x) => x.initialize(ctx),
        }
    }

    fn handle_instruction(&self, ctx: &mut VmContext, opcode: u16) -> (r: Result<bool, VmError>) {
        match self {
            ExtensionSlot::Super(s) => s.handle_instruction(ctx, opcode),
            ExtensionSlot::Xo(x) => x.handle_instruction(ctx, opcode),
        }
    }
}

/// The first pressed key at or after index `i`, scanning upwards.
pub open spec fn first_pressed(keys: Seq<bool>, i: nat) -> Option<u8>
    decreases KEYS_COUNT - i,
{
    if i >= KEYS_COUNT {
        None
    } else if keys[i as int] {
        Some(i as u8)
    } else {
        first_pressed(keys, i + 1)
    }
}

/// The return opcode: pop an address off the stack into the program
/// counter; underflow on an empty stack.
pub open spec fn op_return(m: MState) -> StepOut {
    if m.sp == 0 {
        step_err(m, VmError::StackUnderflow)
    } else {
        step_ok(MState { sp: (m.sp - 1) as u16, pc: m.stack[m.sp - 1], ..m })
    }
}

/// The call opcode: push the post-fetch program counter, then jump;
/// overflow on a full stack.
pub open spec fn op_call(m: MState, nnn: u16) -> StepOut {
    if m.sp >= STACK_SIZE {
        step_err(m, VmError::StackOverflow)
    } else {
        step_ok(
            MState {
                stack: m.stack.update(m.sp as int, m.pc),
                sp: (m.sp + 1) as u16,
                pc: nnn,
                ..m
            },
        )
    }
}

/// The base sprite draw: `n` one-byte rows onto the primary screen.
pub open spec fn op_draw(m: MState, x: int, y: int, n: u8) -> StepOut {
    let regs0 = m.registers.update(15, 0u8);
    let d = draw_rows_buf(
        m.screen,
        m.memory,
        m.i_register as int,
        false,
        regs0[x] as int,
        regs0[y] as int,
        m.current_width as int,
        m.current_height as int,
        n as nat,
    );
    StepOut {
        m: MState { screen: d.buf, registers: m.registers.update(15, flag_of(d.hit)), ..m },
        err: d.err,
    }
}

/// The key-skip opcodes: skip when the key selected by register `x` is
/// pressed (or not pressed, for `want` false); a register value at or above
/// the keypad size is a fatal bounds fault.
pub open spec fn op_key_skip(m: MState, x: int, want: bool) -> StepOut {
    let vx = m.registers[x];
    if vx >= KEYS_COUNT {
        step_err(m, VmError::InvalidKeyIndex)
    } else {
        step_ok(skip_if(m, m.keys[vx as int] == want))
    }
}

/// The wait-for-key opcode: store the first pressed key, or back the
/// program counter off by 2 so the same instruction is fetched again.
pub open spec fn op_wait_key(m: MState, x: int) -> StepOut {
    match first_pressed(m.keys, 0) {
        Some(k) => step_ok(upd_reg(m, x, k)),
        None => step_ok(with_pc(m, (m.pc - 2) as u16)),
    }
}

/// The binary-coded-decimal opcode: the hundreds, tens and ones of register
/// `x` written to three consecutive cells at the index register.
pub open spec fn op_bcd(m: MState, x: int) -> StepOut {
    if m.i_register + 2 >= RAM_SIZE {
        step_err(m, VmError::MemoryOutOfBounds)
    } else {
        let vx = m.registers[x];
        let i = m.i_register as int;
        step_ok(
            MState {
                memory: m.memory.update(i, ((vx / 100) as u8)).update(
                    i + 1,
                    (((vx / 10) % 10) as u8),
                ).update(i + 2, ((vx % 10) as u8)),
                ..m
            },
        )
    }
}

/// The block register store: registers 0..=x written to memory at the index
/// register, bounds-checked against the memory size.
pub open spec fn op_store(m: MState, x: int) -> StepOut {
    if m.i_register + x >= RAM_SIZE {
        step_err(m, VmError::MemoryOutOfBounds)
    } else {
        step_ok(
            MState {
                memory: Seq::new(
                    m.memory.len(),
                    |j: int|
                        if m.i_register <= j <= m.i_register + x {
                            m.registers[j - m.i_register]
                        } else {
                            m.memory[j]
                        },
                ),
                ..m
            },
        )
    }
}

/// The block register load: registers 0..=x read from memory at the index
/// register, bounds-checked against the memory size.
pub open spec fn op_load(m: MState, x: int) -> StepOut {
    if m.i_register + x >= RAM_SIZE {
        step_err(m, VmError::MemoryOutOfBounds)
    } else {
        step_ok(
            MState {
                registers: Seq::new(
                    m.registers.len(),
                    |j: int|
                        if j <= x {
                            m.memory[m.i_register + j]
                        } else {
                            m.registers[j]
                        },
                ),
                ..m
            },
        )
    }
}

/// The canonical opcode table, executed when no active extension consumed
/// the opcode. `rnd` is the byte drawn for the random opcode; every other
/// opcode ignores it. An opcode matching no row is a fatal fault.
pub open spec fn base_step(m: MState, op: u16, rnd: u8) -> StepOut {
    let d1 = (op & 0xF000) >> 12;
    let d2 = ((op & 0x0F00) >> 8) as u8;
    let d3 = ((op & 0x00F0) >> 4) as u8;
    let d4 = (op & 0x000F) as u8;
    let x = d2 as int;
    let y = d3 as int;
    let nn = (op & 0xFF) as u8;
    let nnn = op & 0xFFF;
    if d1 == 0 && d2 == 0 && d3 == 0 && d4 == 0 {
        step_ok(m)
    } else if d1 == 0 && d2 == 0 && d3 == 0xE && d4 == 0 {
        step_ok(
            MState {
                screen: cleared_viewport(
                    m.screen,
                    m.current_width as int,
                    m.current_height as int,
                ),
                ..m
            },
        )
    } else if d1 == 0 && d2 == 0 && d3 == 0xE && d4 == 0xE {
        op_return(m)
    } else if d1 == 1 {
        step_ok(with_pc(m, nnn))
    } else if d1 == 2 {
        op_call(m, nnn)
    } else if d1 == 3 {
        step_ok(skip_if(m, m.registers[x] == nn))
    } else if d1 == 4 {
        step_ok(skip_if(m, m.registers[x] != nn))
    } else if d1 == 5 && d4 == 0 {
        step_ok(skip_if(m, m.registers[x] == m.registers[y]))
    } else if d1 == 6 {
        step_ok(upd_reg(m, x, nn))
    } else if d1 == 7 {
        step_ok(upd_reg(m, x, (((m.registers[x] + nn) % 256) as u8)))
    } else if d1 == 8 && d4 == 0 {
        step_ok(upd_reg(m, x, m.registers[y]))
    } else if d1 == 8 && d4 == 1 {
        step_ok(upd_reg(m, x, m.registers[x] | m.registers[y]))
    } else if d1 == 8 && d4 == 2 {
        step_ok(upd_reg(m, x, m.registers[x] & m.registers[y]))
    } else if d1 == 8 && d4 == 3 {
        step_ok(upd_reg(m, x, m.registers[x] ^ m.registers[y]))
    } else if d1 == 8 && d4 == 4 {
        let sum = m.registers[x] + m.registers[y];
        let m1 = upd_reg(m, x, ((sum % 256) as u8));
        step_ok(
            upd_reg(
                m1,
                15,
                if sum >= 256 {
                    1u8
                } else {
                    0u8
                },
            ),
        )
    } else if d1 == 8 && d4 == 5 {
        let borrow = m.registers[x] < m.registers[y];
        let m1 = upd_reg(m, x, (((m.registers[x] - m.registers[y] + 256) % 256) as u8));
        step_ok(
            upd_reg(
                m1,
                15,
                if borrow {
                    0u8
                } else {
                    1u8
                },
            ),
        )
    } else if d1 == 8 && d4 == 6 {
        let m1 = upd_reg(m, 15, m.registers[x] & 1);
        step_ok(upd_reg(m1, x, m1.registers[x] >> 1))
    } else if d1 == 8 && d4 == 7 {
        let borrow = m.registers[y] < m.registers[x];
        let m1 = upd_reg(m, x, (((m.registers[y] - m.registers[x] + 256) % 256) as u8));
        step_ok(
            upd_reg(
                m1,
                15,
                if borrow {
                    0u8
                } else {
                    1u8
                },
            ),
        )
    } else if d1 == 8 && d4 == 0xE {
        let m1 = upd_reg(m, 15, (m.registers[x] >> 7) & 1);
        step_ok(upd_reg(m1, x, m1.registers[x] << 1))
    } else if d1 == 9 && d4 == 0 {
        step_ok(skip_if(m, m.registers[x] != m.registers[y]))
    } else if d1 == 0xA {
        step_ok(MState { i_register: nnn, ..m })
    } else if d1 == 0xB {
        step_ok(with_pc(m, ((m.registers[0] + nnn) as u16)))
    } else if d1 == 0xC {
        step_ok(upd_reg(m, x, rnd & nn))
    } else if d1 == 0xD {
        op_draw(m, x, y, d4)
    } else if d1 == 0xE && d3 == 9 && d4 == 0xE {
        op_key_skip(m, x, true)
    } else if d1 == 0xE && d3 == 0xA && d4 == 1 {
        op_key_skip(m, x, false)
    } else if d1 == 0xF && d3 == 0 && d4 == 7 {
        step_ok(upd_reg(m, x, m.delay_timer))
    } else if d1 == 0xF && d3 == 0 && d4 == 0xA {
        op_wait_key(m, x)
    } else if d1 == 0xF && d3 == 1 && d4 == 5 {
        step_ok(MState { delay_timer: m.registers[x], ..m })
    } else if d1 == 0xF && d3 == 1 && d4 == 8 {
        step_ok(MState { sound_timer: m.registers[x], ..m })
    } else if d1 == 0xF && d3 == 1 && d4 == 0xE {
        step_ok(MState { i_register: (((m.i_register + m.registers[x]) % 0x10000) as u16), ..m })
    } else if d1 == 0xF && d3 == 2 && d4 == 9 {
        step_ok(MState { i_register: ((m.registers[x] * 5) as u16), ..m })
    } else if d1 == 0xF && d3 == 3 && d4 == 3 {
        op_bcd(m, x)
    } else if d1 == 0xF && d3 == 5 && d4 == 5 {
        op_store(m, x)
    } else if d1 == 0xF && d3 == 6 && d4 == 5 {
        op_load(m, x)
    } else {
        step_err(m, VmError::UnknownOpcode)
    }
}

/// One opcode offered to the extensions in registration order — the first
/// acceptance wins and stops all further processing — with the base table
/// as the fallback when every extension declines.
pub open spec fn dispatch_step(exts: Seq<ExtensionSlot>, m: MState, op: u16, rnd: u8) -> StepOut
    decreases exts.len(),
{
    if exts.len() == 0 {
        base_step(m, op, rnd)
    } else {
        match exts[0].spec_handle(m, op) {
            Some(so) => so,
            None => dispatch_step(exts.drop_first(), m, op, rnd),
        }
    }
}

/// When every extension before `i` declines and extension `i` accepts,
/// dispatch yields extension `i`'s outcome — the extensions after it and
/// the base table never run.
pub proof fn lemma_dispatch_consumed(
    exts: Seq<ExtensionSlot>,
    i: int,
    m: MState,
    op: u16,
    rnd: u8,
)
    requires
        0 <= i < exts.len(),
        forall|j: int| 0 <= j < i ==> (#[trigger] exts[j].spec_handle(m, op)) is None,
        exts[i].spec_handle(m, op) is Some,
    ensures
        dispatch_step(exts, m, op, rnd) == exts[i].spec_handle(m, op).unwrap(),
    decreases i,
{
    if i == 0 {
    } else {
        assert(exts[0].spec_handle(m, op) is None);
        assert forall|j: int| 0 <= j < i - 1 implies (#[trigger] exts.drop_first()[j].spec_handle(
            m,
            op,
        )) is None by {
            assert(exts.drop_first()[j] == exts[j + 1]);
        }
        assert(exts.drop_first()[i - 1] == exts[i]);
        lemma_dispatch_consumed(exts.drop_first(), i - 1, m, op, rnd);
    }
}

/// When every extension declines an opcode, dispatch is the base table.
pub proof fn lemma_dispatch_all_declined(exts: Seq<ExtensionSlot>, m: MState, op: u16, rnd: u8)
    requires
        forall|j: int| 0 <= j < exts.len() ==> (#[trigger] exts[j].spec_handle(m, op)) is None,
    ensures
        dispatch_step(exts, m, op, rnd) == base_step(m, op, rnd),
    decreases exts.len(),
{
    if exts.len() > 0 {
        assert forall|j: int|
            0 <= j < exts.drop_first().len() implies (#[trigger] exts.drop_first()[j].spec_handle(
            m,
            op,
        )) is None by {
            assert(exts.drop_first()[j] == exts[j + 1]);
        }
        lemma_dispatch_all_declined(exts.drop_first(), m, op, rnd);
    }
}

/// The 16-bit big-endian instruction at the program counter.
pub open spec fn fetched_op(m: MState) -> u16 {
    ((m.memory[m.pc as int] as u16) << 8) | (m.memory[m.pc as int + 1] as u16)
}

/// One whole execution step: fetch, advance the program counter by 2, then
/// dispatch the opcode through the extensions and the base table.
pub open spec fn tick_step(exts: Seq<ExtensionSlot>, m: MState, rnd: u8) -> StepOut {
    dispatch_step(exts, MState { pc: ((m.pc + 2) as u16), ..m }, fetched_op(m), rnd)
}

/// A timer after one external advance.
pub open spec fn dec_timer(t: u8) -> u8 {
    if t > 0 {
        (t - 1) as u8
    } else {
        0u8
    }
}

/// Relies on rand::random: one pseudo-random byte. Nothing is promised of
/// its value; callers state what holds of every outcome.
#[verifier::external_body]
fn random_byte() -> u8 {
    rand::random::<u8>()
}

/// The canonical mutable record of all machine resources.
pub struct CpuState {
    pub ctx: VmContext,
}

impl CpuState {
    /// A machine at its initial state: the font embedded at the bottom of
    /// memory, the low-resolution viewport, everything else zero.
    pub fn new() -> (r: Self)
        ensures
            r.ctx.wf(),
            r.ctx@ == init_mstate(),
    {
        let font = fontset();
        let mut memory: Vec<u8> = vec![0u8; RAM_SIZE];
        let mut k: usize = 0;
        while k < FONTSET_SIZE
            invariant
                font@ == spec_fontset(),
                memory@.len() == RAM_SIZE,
                k <= FONTSET_SIZE,
                forall|j: int| 0 <= j < k ==> memory@[j] == spec_fontset()[j],
                forall|j: int| k <= j < RAM_SIZE ==> memory@[j] == 0u8,
            decreases FONTSET_SIZE - k,
        {
            let b = font[k];
            memory[k] = b;
            k += 1;
        }
        let ctx = VmContext {
            pc: START_ADDR,
            memory,
            screen: vec![false; MAX_SCREEN_SIZE],
            current_width: 64,
            current_height: 32,
            registers: vec![0u8; REGISTER_COUNT],
            i_register: 0,
            sp: 0,
            stack: vec![0u16; STACK_SIZE],
            keys: vec![false; KEYS_COUNT],
            delay_timer: 0,
            sound_timer: 0,
            rpl_flags: vec![0u8; FLAG_COUNT],
            plane_1: vec![false; MAX_SCREEN_SIZE],
            plane_2: vec![false; MAX_SCREEN_SIZE],
            plane_mask: 0,
        };
        proof {
            assert(ctx@.memory =~= init_mstate().memory);
            assert(ctx@.screen =~= init_mstate().screen);
            assert(ctx@.registers =~= init_mstate().registers);
            assert(ctx@.stack =~= init_mstate().stack);
            assert(ctx@.keys =~= init_mstate().keys);
            assert(ctx@.rpl_flags =~= init_mstate().rpl_flags);
            assert(ctx@.plane_1 =~= init_mstate().plane_1);
            assert(ctx@.plane_2 =~= init_mstate().plane_2);
        }
        CpuState { ctx }
    }

    /// Re-zeros every resource and re-embeds the font; usable at any time.
    pub fn reset(&mut self)
        ensures
            final(self).ctx.wf(),
            final(self).ctx@ == init_mstate(),
    {
        *self = Self::new();
    }
}

impl Default for CpuState {
    /// The initial machine state.
    fn default() -> (r: Self)
        ensures
            r.ctx.wf(),
            r.ctx@ == init_mstate(),
    {
        Self::new()
    }
}

/// The virtual machine: the machine state and the ordered extension list.
pub struct Chip8VM {
    pub cpu: CpuState,
    pub extensions: Vec<ExtensionSlot>,
}

impl Chip8VM {
    /// The machine state models a well-formed machine.
    pub open spec fn wf(&self) -> bool {
        self.cpu.ctx.wf()
    }

    /// A machine with the given extensions registered in order: each is
    /// given its one-time initialization call, then the machine is reset to
    /// its initial state before any instruction runs.
    pub fn new(extensions: Vec<ExtensionSlot>) -> (r: Self)
        ensures
            r.wf(),
            r.cpu.ctx@ == init_mstate(),
            r.extensions@ == extensions@,
    {
        let mut vm = Chip8VM { cpu: CpuState::new(), extensions: Vec::new() };
        proof {
            assert(vm.extensions@ =~= extensions@.take(0));
        }
        let mut i: usize = 0;
        while i < extensions.len()
            invariant
                vm.cpu.ctx.wf(),
                i <= extensions@.len(),
                vm.extensions@ == extensions@.take(i as int),
            decreases extensions@.len() - i,
        {
            let ext = extensions[i];
            ext.initialize(&mut vm.cpu.ctx);
            vm.extensions.push(ext);
            proof {
                assert(vm.extensions@ =~= extensions@.take(i as int + 1));
            }
            i += 1;
        }
        proof {
            assert(extensions@.take(extensions@.len() as int) =~= extensions@);
        }
        vm.cpu.reset();
        vm
    }

    /// Loads a program image verbatim at the start address; an image that
    /// would run past the end of memory is rejected without touching state.
    #[verifier::loop_isolation(false)]
    pub fn load(&mut self, data: &[u8]) -> (r: Result<(), VmError>)
        requires
            old(self).wf(),
        ensures
            final(self).wf(),
            final(self).extensions@ == old(self).extensions@,
            if START_ADDR + data@.len() > RAM_SIZE {
                r == Err::<(), VmError>(VmError::RomTooLarge) && final(self).cpu.ctx@ == old(
                    self,
                ).cpu.ctx@
            } else {
                r == Ok::<(), VmError>(()) && final(self).cpu.ctx@ == (MState {
                    memory: Seq::new(
                        old(self).cpu.ctx@.memory.len(),
                        |j: int|
                            if START_ADDR <= j < START_ADDR + data@.len() {
                                data@[j - START_ADDR]
                            } else {
                                old(self).cpu.ctx@.memory[j]
                            },
                    ),
                    ..old(self).cpu.ctx@
                })
            },
    {
        let start: usize = START_ADDR as usize;
        if data.len() > RAM_SIZE - start {
            return Err(VmError::RomTooLarge);
        }
        proof {
            assert(Seq::new(
                old(self).cpu.ctx@.memory.len(),
                |j: int|
                    if START_ADDR <= j < START_ADDR {
                        data@[j - START_ADDR]
                    } else {
                        old(self).cpu.ctx@.memory[j]
                    },
            ) =~= old(self).cpu.ctx@.memory);
        }
        let mut k: usize = 0;
        while k < data.len()
            invariant
                self.wf(),
                k <= data@.len(),
                data@.len() <= RAM_SIZE - START_ADDR,
                self.extensions@ == old(self).extensions@,
                self.cpu.ctx@ == (MState {
                    memory: Seq::new(
                        old(self).cpu.ctx@.memory.len(),
                        |j: int|
                            if START_ADDR <= j < START_ADDR + k {
                                data@[j - START_ADDR]
                            } else {
                                old(self).cpu.ctx@.memory[j]
                            },
                    ),
                    ..old(self).cpu.ctx@
                }),
            decreases data@.len() - k,
        {
            let b = data[k];
            self.cpu.ctx.memory[start + k] = b;
            proof {
                assert(self.cpu.ctx.memory@ =~= Seq::new(
                    old(self).cpu.ctx@.memory.len(),
                    |j: int|
                        if START_ADDR <= j < START_ADDR + (k + 1) {
                            data@[j - START_ADDR]
                        } else {
                            old(self).cpu.ctx@.memory[j]
                        },
                ));
            }
            k += 1;
        }
        Ok(())
    }

    /// Executes exactly one instruction: fetch at the program counter,
    /// advance it by 2, offer the opcode to each active extension in
    /// registration order, and fall back to the base table if none accept.
    /// The outcome is `tick_step` for some drawn random byte.
    pub fn tick(&mut self) -> (r: Result<(), VmError>)
        requires
            old(self).wf(),
            old(self).cpu.ctx.pc + 1 < RAM_SIZE,
        ensures
            final(self).wf(),
            final(self).extensions@ == old(self).extensions@,
            exists|rnd: u8|
                ({
                    let so = #[trigger] tick_step(old(self).extensions@, old(self).cpu.ctx@, rnd);
                    final(self).cpu.ctx@ == so.m && r == res_of(so.err)
                }),
    {
        let ghost m0 = self.cpu.ctx@;
        let ghost exts0 = self.extensions@;
        let op = self.fetch();
        let ghost m1 = self.cpu.ctx@;
        let r = self.execute(op);
        proof {
            let rnd = choose|rnd: u8|
                ({
                    let so = #[trigger] dispatch_step(exts0, m1, op, rnd);
                    self.cpu.ctx@ == so.m && r == res_of(so.err)
                });
            assert(({
                let so = tick_step(exts0, m0, rnd);
                self.cpu.ctx@ == so.m && r == res_of(so.err)
            }));
        }
        r
    }

    /// Advances both timers by one external step and reports their new
    /// values; the sound timer's transition through 1 is the caller's
    /// signal to the audio collaborator.
    pub fn tick_timers(&mut self) -> (r: (u8, u8))
        requires
            old(self).wf(),
        ensures
            final(self).wf(),
            final(self).extensions@ == old(self).extensions@,
            final(self).cpu.ctx@ == (MState {
                delay_timer: dec_timer(old(self).cpu.ctx@.delay_timer),
                sound_timer: dec_timer(old(self).cpu.ctx@.sound_timer),
                ..old(self).cpu.ctx@
            }),
            r == (
                dec_timer(old(self).cpu.ctx@.delay_timer),
                dec_timer(old(self).cpu.ctx@.sound_timer),
            ),
    {
        if self.cpu.ctx.delay_timer > 0 {
            self.cpu.ctx.delay_timer = self.cpu.ctx.delay_timer - 1;
        }
        if self.cpu.ctx.sound_timer > 0 {
            self.cpu.ctx.sound_timer = self.cpu.ctx.sound_timer - 1;
        }
        (self.cpu.ctx.delay_timer, self.cpu.ctx.sound_timer)
    }

    /// The active viewport and the primary pixel buffer, for a rendering
    /// collaborator to poll once per output frame.
    pub fn get_display_config(&self) -> (r: (usize, usize, &Vec<bool>))
        ensures
            r.0 == self.cpu.ctx@.current_width,
            r.1 == self.cpu.ctx@.current_height,
            r.2@ == self.cpu.ctx@.screen,
    {
        (self.cpu.ctx.current_width, self.cpu.ctx.current_height, &self.cpu.ctx.screen)
    }

    /// Records one keypad event. An index at or above the keypad size is a
    /// reported, recoverable fault that changes nothing.
    pub fn keypress(&mut self, idx: usize, pressed: bool) -> (r: Result<(), VmError>)
        requires
            old(self).wf(),
        ensures
            final(self).wf(),
            final(self).extensions@ == old(self).extensions@,
            if idx >= KEYS_COUNT {
                r == Err::<(), VmError>(VmError::InvalidKeyIndex) && final(self).cpu.ctx@ == old(
                    self,
                ).cpu.ctx@
            } else {
                r == Ok::<(), VmError>(()) && final(self).cpu.ctx@ == (MState {
                    keys: old(self).cpu.ctx@.keys.update(idx as int, pressed),
                    ..old(self).cpu.ctx@
                })
            },
    {
        if idx >= KEYS_COUNT {
            return Err(VmError::InvalidKeyIndex);
        }
        self.cpu.ctx.keys[idx] = pressed;
        Ok(())
    }

    /// Offers one already-fetched opcode to each active extension in
    /// registration order — the first acceptance wins and stops all further
    /// processing — and falls back to the base opcode table when every
    /// extension declines.
    #[verifier::loop_isolation(false)]
    #[verifier::rlimit(60)]
    fn execute(&mut self, op: u16) -> (r: Result<(), VmError>)
        requires
            old(self).wf(),
            2 <= old(self).cpu.ctx.pc <= RAM_SIZE,
        ensures
            final(self).wf(),
            final(self).extensions@ == old(self).extensions@,
            exists|rnd: u8|
                ({
                    let so = #[trigger] dispatch_step(old(self).extensions@, old(self).cpu.ctx@, op, rnd);
                    final(self).cpu.ctx@ == so.m && r == res_of(so.err)
                }),
    {
        let ghost m0 = self.cpu.ctx@;
        let ghost exts0 = self.extensions@;
        let n = self.extensions.len();
        let mut idx: usize = 0;
        while idx < n
            invariant
                self.wf(),
                idx <= n,
                self.cpu.ctx@ == m0,
                self.extensions@ == exts0,
                forall|j: int| 0 <= j < idx ==> (#[trigger] exts0[j].spec_handle(m0, op)) is None,
            decreases n - idx,
        {
            let ext = self.extensions[idx];
            if ext.is_active() {
                let hr = ext.handle_instruction(&mut self.cpu.ctx, op);
                match hr {
                    Ok(true) => {
                        proof {
                            lemma_dispatch_consumed(exts0, idx as int, m0, op, 0u8);
                            assert(({
                                let so = dispatch_step(exts0, m0, op, 0u8);
                                self.cpu.ctx@ == so.m && Ok::<(), VmError>(()) == res_of(so.err)
                            }));
                        }
                        return Ok(());
                    },
                    Ok(false) => {
                    },
                    Err(e) => {
                        proof {
                            lemma_dispatch_consumed(exts0, idx as int, m0, op, 0u8);
                            assert(({
                                let so = dispatch_step(exts0, m0, op, 0u8);
                                self.cpu.ctx@ == so.m && Err::<(), VmError>(e) == res_of(so.err)
                            }));
                        }
                        return Err(e);
                    },
                }
            }
            idx += 1;
        }
        let d1 = (op & 0xF000) >> 12;
        let d2 = ((op & 0x0F00) >> 8) as u8;
        let d3 = ((op & 0x00F0) >> 4) as u8;
        let d4 = (op & 0x000F) as u8;
        let x = d2 as usize;
        let y = d3 as usize;
        let nn = (op & 0xFF) as u8;
        let nnn = op & 0xFFF;
        proof {
            lemma_nibbles(op);
        }
        let ghost mut rnd_g: u8 = 0;

        let res: Result<(), VmError> = match (d1, d2, d3, d4) {
            // No-op.
            (0, 0, 0, 0) => Ok(()),
            // Clear the active viewport.
            (0, 0, 0xE, 0) => {
                let w = self.cpu.ctx.current_width;
                let h = self.cpu.ctx.current_height;
                viewport_clear(&mut self.cpu.ctx.screen, w, h);
                Ok(())
            },
            // Return from a call.
            (0, 0, 0xE, 0xE) => {
                match self.pop_from_stack() {
                    Ok(addr) => {
                        self.cpu.ctx.pc = addr;
                        Ok(())
                    },
                    Err(e) => Err(e),
                }
            },
            // Jump.
            (1, _, _, _) => {
                self.cpu.ctx.pc = nnn;
                Ok(())
            },
            // Call.
            (2, _, _, _) => {
                let cur = self.cpu.ctx.pc;
                match self.push_to_stack(cur) {
                    Ok(()) => {
                        self.cpu.ctx.pc = nnn;
                        Ok(())
                    },
                    Err(e) => Err(e),
                }
            },
            // Skip if the register equals the immediate.
            (3, _, _, _) => {
                if self.cpu.ctx.registers[x] == nn {
                    self.cpu.ctx.pc = self.cpu.ctx.pc + 2;
                }
                Ok(())
            },
            // Skip if the register differs from the immediate.
            (4, _, _, _) => {
                if self.cpu.ctx.registers[x] != nn {
                    self.cpu.ctx.pc = self.cpu.ctx.pc + 2;
                }
                Ok(())
            },
            // Skip if the registers are equal.
            (5, _, _, 0) => {
                if self.cpu.ctx.registers[x] == self.cpu.ctx.registers[y] {
                    self.cpu.ctx.pc = self.cpu.ctx.pc + 2;
                }
                Ok(())
            },
            // Load immediate.
            (6, _, _, _) => {
                self.cpu.ctx.registers[x] = nn;
                Ok(())
            },
            // Add immediate, wrapping, without flag side effects.
            (7, _, _, _) => {
                let vx = self.cpu.ctx.registers[x];
                let sum = vx as u16 + nn as u16;
                self.cpu.ctx.registers[x] = (sum % 256) as u8;
                Ok(())
            },
            // Register copy.
            (8, _, _, 0) => {
                let vy = self.cpu.ctx.registers[y];
                self.cpu.ctx.registers[x] = vy;
                Ok(())
            },
            // Bitwise OR.
            (8, _, _, 1) => {
                let v = self.cpu.ctx.registers[x] | self.cpu.ctx.registers[y];
                self.cpu.ctx.registers[x] = v;
                Ok(())
            },
            // Bitwise AND.
            (8, _, _, 2) => {
                let v = self.cpu.ctx.registers[x] & self.cpu.ctx.registers[y];
                self.cpu.ctx.registers[x] = v;
                Ok(())
            },
            // Bitwise XOR.
            (8, _, _, 3) => {
                let v = self.cpu.ctx.registers[x] ^ self.cpu.ctx.registers[y];
                self.cpu.ctx.registers[x] = v;
                Ok(())
            },
            // Add with the carry reported in the flag register.
            (8, _, _, 4) => {
                let vx = self.cpu.ctx.registers[x];
                let vy = self.cpu.ctx.registers[y];
                let sum = vx as u16 + vy as u16;
                self.cpu.ctx.registers[x] = (sum % 256) as u8;
                self.cpu.ctx.registers[15] = if sum >= 256 {
                    1
                } else {
                    0
                };
                Ok(())
            },
            // Subtract; flag 1 means no borrow occurred.
            (8, _, _, 5) => {
                let vx = self.cpu.ctx.registers[x];
                let vy = self.cpu.ctx.registers[y];
                let diff = (vx as u16 + 256 - vy as u16) % 256;
                self.cpu.ctx.registers[x] = diff as u8;
                self.cpu.ctx.registers[15] = if vx < vy {
                    0
                } else {
                    1
                };
                Ok(())
            },
            // Shift right; the flag register takes the dropped bit.
            (8, _, _, 6) => {
                let vx = self.cpu.ctx.registers[x];
                self.cpu.ctx.registers[15] = vx & 1;
                let v2 = self.cpu.ctx.registers[x];
                self.cpu.ctx.registers[x] = v2 >> 1u8;
                Ok(())
            },
            // Reverse subtract; flag 1 means no borrow occurred.
            (8, _, _, 7) => {
                let vx = self.cpu.ctx.registers[x];
                let vy = self.cpu.ctx.registers[y];
                let diff = (vy as u16 + 256 - vx as u16) % 256;
                self.cpu.ctx.registers[x] = diff as u8;
                self.cpu.ctx.registers[15] = if vy < vx {
                    0
                } else {
                    1
                };
                Ok(())
            },
            // Shift left; the flag register takes the dropped bit.
            (8, _, _, 0xE) => {
                let vx = self.cpu.ctx.registers[x];
                self.cpu.ctx.registers[15] = (vx >> 7u8) & 1;
                let v2 = self.cpu.ctx.registers[x];
                self.cpu.ctx.registers[x] = v2 << 1u8;
                Ok(())
            },
            // Skip if the registers differ.
            (9, _, _, 0) => {
                if self.cpu.ctx.registers[x] != self.cpu.ctx.registers[y] {
                    self.cpu.ctx.pc = self.cpu.ctx.pc + 2;
                }
                Ok(())
            },
            // Set the index register.
            (0xA, _, _, _) => {
                self.cpu.ctx.i_register = nnn;
                Ok(())
            },
            // Indexed jump through register 0.
            (0xB, _, _, _) => {
                let v0 = self.cpu.ctx.registers[0];
                self.cpu.ctx.pc = v0 as u16 + nnn;
                Ok(())
            },
            // Random byte masked by the immediate.
            (0xC, _, _, _) => {
                let rng = random_byte();
                proof {
                    rnd_g = rng;
                }
                self.cpu.ctx.registers[x] = rng & nn;
                Ok(())
            },
            // Draw an n-row sprite.
            (0xD, _, _, n) => {
                match draw_sprite_screen(&mut self.cpu.ctx, x, y, n as usize, false) {
                    Ok(()) => Ok(()),
                    Err(e) => Err(e),
                }
            },
            // Skip if the key selected by the register is pressed.
            (0xE, _, 9, 0xE) => {
                let vx = self.cpu.ctx.registers[x];
                if vx as usize >= KEYS_COUNT {
                    Err(VmError::InvalidKeyIndex)
                } else {
                    if self.cpu.ctx.keys[vx as usize] {
                        self.cpu.ctx.pc = self.cpu.ctx.pc + 2;
                    }
                    Ok(())
                }
            },
            // Skip if the key selected by the register is not pressed.
            (0xE, _, 0xA, 1) => {
                let vx = self.cpu.ctx.registers[x];
                if vx as usize >= KEYS_COUNT {
                    Err(VmError::InvalidKeyIndex)
                } else {
                    if !self.cpu.ctx.keys[vx as usize] {
                        self.cpu.ctx.pc = self.cpu.ctx.pc + 2;
                    }
                    Ok(())
                }
            },
            // Read the delay timer.
            (0xF, _, 0, 7) => {
                let dt = self.cpu.ctx.delay_timer;
                self.cpu.ctx.registers[x] = dt;
                Ok(())
            },
            // Wait for a key: store the first pressed key, or back the
            // program counter off so the instruction is fetched again.
            (0xF, _, 0, 0xA) => {
                let mut pressed_key: Option<u8> = None;
                let mut i: usize = 0;
                while i < KEYS_COUNT
                    invariant
                        self.wf(),
                        self.cpu.ctx@ == m0,
                        self.extensions@ == exts0,
                        i <= KEYS_COUNT,
                        match pressed_key {
                            Some(k) => first_pressed(m0.keys, 0) == Some(k),
                            None => first_pressed(m0.keys, 0) == first_pressed(m0.keys, i as nat),
                        },
                    decreases KEYS_COUNT - i,
                {
                    if pressed_key.is_none() && self.cpu.ctx.keys[i] {
                        pressed_key = Some(i as u8);
                    }
                    i += 1;
                }
                match pressed_key {
                    Some(k) => {
                        self.cpu.ctx.registers[x] = k;
                    },
                    None => {
                        self.cpu.ctx.pc = self.cpu.ctx.pc - 2;
                    },
                }
                Ok(())
            },
            // Set the delay timer.
            (0xF, _, 1, 5) => {
                let vx = self.cpu.ctx.registers[x];
                self.cpu.ctx.delay_timer = vx;
                Ok(())
            },
            // Set the sound timer.
            (0xF, _, 1, 8) => {
                let vx = self.cpu.ctx.registers[x];
                self.cpu.ctx.sound_timer = vx;
                Ok(())
            },
            // Add the register into the index register, wrapping.
            (0xF, _, 1, 0xE) => {
                let i_reg = self.cpu.ctx.i_register;
                let vx = self.cpu.ctx.registers[x];
                let sum = (i_reg as u32 + vx as u32) % 0x10000;
                self.cpu.ctx.i_register = sum as u16;
                Ok(())
            },
            // Point the index register at the glyph of the register value.
            (0xF, _, 2, 9) => {
                let c = self.cpu.ctx.registers[x] as u16;
                self.cpu.ctx.i_register = c * 5;
                Ok(())
            },
            // Binary-coded decimal of the register value.
            (0xF, _, 3, 3) => {
                let iu = self.cpu.ctx.i_register as usize;
                if iu + 2 >= RAM_SIZE {
                    Err(VmError::MemoryOutOfBounds)
                } else {
                    let vx = self.cpu.ctx.registers[x];
                    self.cpu.ctx.memory[iu] = vx / 100;
                    self.cpu.ctx.memory[iu + 1] = (vx / 10) % 10;
                    self.cpu.ctx.memory[iu + 2] = vx % 10;
                    Ok(())
                }
            },
            // Block store of registers 0..=x at the index register.
            (0xF, _, 5, 5) => {
                let iu = self.cpu.ctx.i_register as usize;
                if iu + x >= RAM_SIZE {
                    Err(VmError::MemoryOutOfBounds)
                } else {
                    let ghost i0 = m0.i_register as int;
                    proof {
                        assert(Seq::new(
                            m0.memory.len(),
                            |j: int|
                                if i0 <= j < i0 {
                                    m0.registers[j - i0]
                                } else {
                                    m0.memory[j]
                                },
                        ) =~= m0.memory);
                    }
                    let mut t: usize = 0;
                    while t <= x
                        invariant
                            self.wf(),
                            self.extensions@ == exts0,
                            t <= x + 1,
                            iu + x < RAM_SIZE,
                            self.cpu.ctx@ == (MState {
                                memory: Seq::new(
                                    m0.memory.len(),
                                    |j: int|
                                        if i0 <= j < i0 + t {
                                            m0.registers[j - i0]
                                        } else {
                                            m0.memory[j]
                                        },
                                ),
                                ..m0
                            }),
                        decreases x + 1 - t,
                    {
                        let v = self.cpu.ctx.registers[t];
                        self.cpu.ctx.memory[iu + t] = v;
                        proof {
                            assert(self.cpu.ctx.memory@ =~= Seq::new(
                                m0.memory.len(),
                                |j: int|
                                    if i0 <= j < i0 + (t + 1) {
                                        m0.registers[j - i0]
                                    } else {
                                        m0.memory[j]
                                    },
                            ));
                        }
                        t += 1;
                    }
                    proof {
                        assert(self.cpu.ctx.memory@ =~= Seq::new(
                            m0.memory.len(),
                            |j: int|
                                if i0 <= j <= i0 + x {
                                    m0.registers[j - i0]
                                } else {
                                    m0.memory[j]
                                },
                        ));
                    }
                    Ok(())
                }
            },
            // Block load of registers 0..=x from the index register.
            (0xF, _, 6, 5) => {
                let iu = self.cpu.ctx.i_register as usize;
                if iu + x >= RAM_SIZE {
                    Err(VmError::MemoryOutOfBounds)
                } else {
                    let ghost i0 = m0.i_register as int;
                    proof {
                        assert(Seq::new(
                            m0.registers.len(),
                            |j: int|
                                if j < 0 {
                                    m0.memory[i0 + j]
                                } else {
                                    m0.registers[j]
                                },
                        ) =~= m0.registers);
                    }
                    let mut t: usize = 0;
                    while t <= x
                        invariant
                            self.wf(),
                            self.extensions@ == exts0,
                            t <= x + 1,
                            iu + x < RAM_SIZE,
                            self.cpu.ctx@ == (MState {
                                registers: Seq::new(
                                    m0.registers.len(),
                                    |j: int|
                                        if j < t {
                                            m0.memory[i0 + j]
                                        } else {
                                            m0.registers[j]
                                        },
                                ),
                                ..m0
                            }),
                        decreases x + 1 - t,
                    {
                        let v = self.cpu.ctx.memory[iu + t];
                        self.cpu.ctx.registers[t] = v;
                        proof {
                            assert(self.cpu.ctx.registers@ =~= Seq::new(
                                m0.registers.len(),
                                |j: int|
                                    if j < t + 1 {
                                        m0.memory[i0 + j]
                                    } else {
                                        m0.registers[j]
                                    },
                            ));
                        }
                        t += 1;
                    }
                    proof {
                        assert(self.cpu.ctx.registers@ =~= Seq::new(
                            m0.registers.len(),
                            |j: int|
                                if j <= x as int {
                                    m0.memory[i0 + j]
                                } else {
                                    m0.registers[j]
                                },
                        ));
                    }
                    Ok(())
                }
            },
            // Anything else is a fatal unimplemented opcode.
            _ => Err(VmError::UnknownOpcode),
        };
        proof {
            lemma_dispatch_all_declined(exts0, m0, op, rnd_g);
            assert(({
                let so = dispatch_step(exts0, m0, op, rnd_g);
                self.cpu.ctx@ == so.m && res == res_of(so.err)
            }));
        }
        res
    }

    /// Fetches the big-endian instruction at the program counter and
    /// advances the counter by 2.
    fn fetch(&mut self) -> (op: u16)
        requires
            old(self).wf(),
            old(self).cpu.ctx.pc + 1 < RAM_SIZE,
        ensures
            final(self).wf(),
            final(self).extensions@ == old(self).extensions@,
            op == fetched_op(old(self).cpu.ctx@),
            final(self).cpu.ctx@ == (MState {
                pc: ((old(self).cpu.ctx@.pc + 2) as u16),
                ..old(self).cpu.ctx@
            }),
    {
        let hi = self.cpu.ctx.memory[self.cpu.ctx.pc as usize] as u16;
        let lo = self.cpu.ctx.memory[(self.cpu.ctx.pc + 1) as usize] as u16;
        let op = (hi << 8) | lo;
        self.cpu.ctx.pc = self.cpu.ctx.pc + 2;
        op
    }

    /// Pushes a return address; overflow on a full stack changes nothing.
    pub fn push_to_stack(&mut self, val: u16) -> (r: Result<(), VmError>)
        requires
            old(self).wf(),
        ensures
            final(self).wf(),
            final(self).extensions@ == old(self).extensions@,
            if old(self).cpu.ctx.sp >= STACK_SIZE {
                r == Err::<(), VmError>(VmError::StackOverflow) && final(self).cpu.ctx@ == old(
                    self,
                ).cpu.ctx@
            } else {
                r == Ok::<(), VmError>(()) && final(self).cpu.ctx@ == (MState {
                    stack: old(self).cpu.ctx@.stack.update(old(self).cpu.ctx@.sp as int, val),
                    sp: ((old(self).cpu.ctx@.sp + 1) as u16),
                    ..old(self).cpu.ctx@
                })
            },
    {
        if self.cpu.ctx.sp as usize >= STACK_SIZE {
            return Err(VmError::StackOverflow);
        }
        let sp = self.cpu.ctx.sp as usize;
        self.cpu.ctx.stack[sp] = val;
        self.cpu.ctx.sp = self.cpu.ctx.sp + 1;
        Ok(())
    }

    /// Pops a return address; underflow on an empty stack changes nothing.
    pub fn pop_from_stack(&mut self) -> (r: Result<u16, VmError>)
        requires
            old(self).wf(),
        ensures
            final(self).wf(),
            final(self).extensions@ == old(self).extensions@,
            if old(self).cpu.ctx.sp == 0 {
                r == Err::<u16, VmError>(VmError::StackUnderflow) && final(self).cpu.ctx@ == old(
                    self,
                ).cpu.ctx@
            } else {
                r == Ok::<u16, VmError>(
                    old(self).cpu.ctx@.stack[old(self).cpu.ctx@.sp - 1],
                ) && final(self).cpu.ctx@ == (MState {
                    sp: ((old(self).cpu.ctx@.sp - 1) as u16),
                    ..old(self).cpu.ctx@
                })
            },
    {
        if self.cpu.ctx.sp == 0 {
            return Err(VmError::StackUnderflow);
        }
        self.cpu.ctx.sp = self.cpu.ctx.sp - 1;
        let v = self.cpu.ctx.stack[self.cpu.ctx.sp as usize];
        Ok(v)
    }
}

impl Default for Chip8VM {
    /// A machine with no extensions registered.
    fn default() -> (r: Self)
        ensures
            r.wf(),
            r.cpu.ctx@ == init_mstate(),
            r.extensions@ == Seq::<ExtensionSlot>::empty(),
    {
        Self::new(Vec::new())
    }
}

} // verus!
