//! The resolution / 16-by-16-sprite / flag-persistence extension.
//!
//! Layered over the base table it adds: viewport toggling between the two
//! resolutions, a 16-by-16 sprite draw with the base draw's wraparound and
//! collision semantics, viewport scrolls, transfers between the registers
//! and the persistent flag bank, the large-font address lookup, and an
//! explicit exit opcode treated as a fatal halt.

use vstd::prelude::*;
use crate::conf::{FLAG_COUNT, LARGE_FONT_BASE_ADDR, REGISTER_COUNT};
use crate::display::{
    all_false, buf_fill_false, buf_scroll_down, buf_scroll_left, buf_scroll_right,
    draw_rows_buf, draw_sprite_screen, flag_of, scrolled_down, scrolled_left, scrolled_right,
};
use crate::error::VmError;
use crate::extensions::{Extension, VmContext};
use crate::model::{MState, StepOut, res_of, step_err, step_ok};

verus! {

/// The full opcode semantics of the extension, assuming it is active:
/// `None` declines the opcode to the next handler or the base table.
pub open spec fn schip_step(m: MState, op: u16) -> Option<StepOut> {
    let d1 = (op & 0xF000) >> 12;
    let x = ((op & 0x0F00) >> 8) as u8;
    let y = ((op & 0x00F0) >> 4) as u8;
    let n = (op & 0x000F) as u8;
    if d1 == 0 && x == 0 && y == 0xF && n == 0xD {
        Some(step_err(m, VmError::Exit))
    } else if d1 == 0 && x == 0 && y == 0xF && n == 0xE {
        Some(step_ok(MState { current_width: 64, current_height: 32, ..m }))
    } else if d1 == 0 && x == 0 && y == 0xF && n == 0xF {
        Some(step_ok(MState { current_width: 128, current_height: 64, ..m }))
    } else if d1 == 0xD && n == 0 {
        Some(schip_draw16(m, x as int, y as int))
    } else if d1 == 0 && x == 0 && y == 0xC {
        Some(
            step_ok(
                MState {
                    screen: if n >= m.current_height {
                        all_false(m.screen.len())
                    } else {
                        scrolled_down(
                            m.screen,
                            m.current_width as int,
                            m.current_height as int,
                            n as int,
                        )
                    },
                    ..m
                },
            ),
        )
    } else if d1 == 0 && x == 0 && y == 0xF && n == 0xB {
        Some(
            step_ok(
                MState {
                    screen: scrolled_right(
                        m.screen,
                        m.current_width as int,
                        m.current_height as int,
                        4,
                    ),
                    ..m
                },
            ),
        )
    } else if d1 == 0 && x == 0 && y == 0xF && n == 0xC {
        Some(
            step_ok(
                MState {
                    screen: scrolled_left(
                        m.screen,
                        m.current_width as int,
                        m.current_height as int,
                        4,
                    ),
                    ..m
                },
            ),
        )
    } else if d1 == 0xF && y == 3 && n == 0 {
        Some(
            step_ok(
                MState {
                    i_register: (LARGE_FONT_BASE_ADDR + m.registers[x as int] * 10) as u16,
                    ..m
                },
            ),
        )
    } else if d1 == 0xF && y == 7 && n == 5 {
        if x >= FLAG_COUNT {
            Some(step_err(m, VmError::MemoryOutOfBounds))
        } else {
            Some(
                step_ok(
                    MState {
                        rpl_flags: Seq::new(
                            m.rpl_flags.len(),
                            |j: int|
                                if j <= x {
                                    m.registers[j]
                                } else {
                                    m.rpl_flags[j]
                                },
                        ),
                        ..m
                    },
                ),
            )
        }
    } else if d1 == 0xF && y == 8 && n == 5 {
        if x >= FLAG_COUNT {
            Some(step_err(m, VmError::MemoryOutOfBounds))
        } else {
            Some(
                step_ok(
                    MState {
                        registers: Seq::new(
                            m.registers.len(),
                            |j: int|
                                if j <= x {
                                    m.rpl_flags[j]
                                } else {
                                    m.registers[j]
                                },
                        ),
                        ..m
                    },
                ),
            )
        }
    } else {
        None
    }
}

/// The 16-by-16 sprite draw of the extension, on the primary screen.
pub open spec fn schip_draw16(m: MState, x: int, y: int) -> StepOut {
    let regs0 = m.registers.update(15, 0u8);
    let d = draw_rows_buf(
        m.screen,
        m.memory,
        m.i_register as int,
        true,
        regs0[x] as int,
        regs0[y] as int,
        m.current_width as int,
        m.current_height as int,
        16,
    );
    StepOut {
        m: MState { screen: d.buf, registers: m.registers.update(15, flag_of(d.hit)), ..m },
        err: d.err,
    }
}

/// The resolution / 16-by-16-sprite / flag-persistence extension handler.
#[derive(Clone, Copy)]
pub struct SuperChip8 {
    pub active: bool,
}

impl SuperChip8 {
    /// A handler that intercepts opcodes exactly when `active` holds.
    pub fn new(active: bool) -> (r: Self)
        ensures
            r.spec_active() == active,
    {
        SuperChip8 { active }
    }

    /// Draws a 16-by-16 sprite (two bytes per row, most significant bit
    /// first) at the coordinates in registers `x_reg` and `y_reg`, with the
    /// base draw's wraparound, XOR and collision semantics.
    pub fn draw_16x16_sprite(&self, ctx: &mut VmContext, x_reg: usize, y_reg: usize) -> (r: Result<
        (),
        VmError,
    >)
        requires
            old(ctx).wf(),
            x_reg < REGISTER_COUNT,
            y_reg < REGISTER_COUNT,
        ensures
            final(ctx).wf(),
            ({
                let so = schip_draw16(old(ctx)@, x_reg as int, y_reg as int);
                final(ctx)@ == so.m && r == res_of(so.err)
            }),
    {
        draw_sprite_screen(ctx, x_reg, y_reg, 16, true)
    }
}

impl Extension for SuperChip8 {
    open spec fn spec_active(&self) -> bool {
        self.active
    }

    open spec fn spec_handle(&self, m: MState, op: u16) -> Option<StepOut> {
        if self.active {
            schip_step(m, op)
        } else {
            None
        }
    }

    open spec fn spec_name(&self) -> Seq<char> {
        "Super-CHIP"@
    }

    fn name(&self) -> (r: &'static str) {
        "Super-CHIP"
    }

    fn is_active(&self) -> (r: bool) {
        self.active
    }

    fn initialize(&self, _ctx: &mut VmContext) {
    }

    fn handle_instruction(&self, ctx: &mut VmContext, opcode: u16) -> (r: Result<bool, VmError>) {
        if !self.active {
            return Ok(false);
        }
        let d1 = (opcode & 0xF000) >> 12;
        let x = ((opcode & 0x0F00) >> 8) as u8;
        let y = ((opcode & 0x00F0) >> 4) as u8;
        let n = (opcode & 0x000F) as u8;
        proof {
            crate::model::lemma_nibbles(opcode);
        }

        match (d1, x, y, n) {
            // Exit interpreter: a deliberate, fatal halt.
            (0, 0, 0xF, 0xD) => Err(VmError::Exit),
            // Disable extended screen.
            (0, 0, 0xF, 0xE) => {
                ctx.current_width = 64;
                ctx.current_height = 32;
                Ok(true)
            },
            // Enable extended screen.
            (0, 0, 0xF, 0xF) => {
                ctx.current_width = 128;
                ctx.current_height = 64;
                Ok(true)
            },
            // Draw 16x16 sprite.
            (0xD, _, _, 0) => {
                match self.draw_16x16_sprite(ctx, x as usize, y as usize) {
                    Ok(()) => Ok(true),
                    Err(e) => Err(e),
                }
            },
            // Scroll the viewport down n rows.
            (0, 0, 0xC, _) => {
                if n as usize >= ctx.current_height {
                    buf_fill_false(&mut ctx.screen);
                } else {
                    let w = ctx.current_width;
                    let h = ctx.current_height;
                    buf_scroll_down(&mut ctx.screen, w, h, n as usize);
                }
                Ok(true)
            },
            // Scroll the viewport right 4 columns.
            (0, 0, 0xF, 0xB) => {
                let w = ctx.current_width;
                let h = ctx.current_height;
                buf_scroll_right(&mut ctx.screen, w, h, 4);
                Ok(true)
            },
            // Scroll the viewport left 4 columns.
            (0, 0, 0xF, 0xC) => {
                let w = ctx.current_width;
                let h = ctx.current_height;
                buf_scroll_left(&mut ctx.screen, w, h, 4);
                Ok(true)
            },
            // Point the index register at the large glyph of the register value.
            (0xF, _, 3, 0) => {
                let c = ctx.registers[x as usize] as u16;
                ctx.i_register = LARGE_FONT_BASE_ADDR + c * 10;
                Ok(true)
            },
            // Persist registers 0..=x into the flag bank.
            (0xF, _, 7, 5) => {
                if x as usize >= FLAG_COUNT {
                    return Err(VmError::MemoryOutOfBounds);
                }
                proof {
                    assert(Seq::new(
                        old(ctx)@.rpl_flags.len(),
                        |j: int|
                            if j < 0 {
                                old(ctx)@.registers[j]
                            } else {
                                old(ctx)@.rpl_flags[j]
                            },
                    ) =~= old(ctx)@.rpl_flags);
                }
                let mut i: usize = 0;
                while i <= x as usize
                    invariant
                        ctx.wf(),
                        x < FLAG_COUNT,
                        i <= x + 1,
                        ctx@ == (MState {
                            rpl_flags: Seq::new(
                                old(ctx)@.rpl_flags.len(),
                                |j: int|
                                    if j < i as int {
                                        old(ctx)@.registers[j]
                                    } else {
                                        old(ctx)@.rpl_flags[j]
                                    },
                            ),
                            ..old(ctx)@
                        }),
                    decreases x + 1 - i,
                {
                    let v = ctx.registers[i];
                    ctx.rpl_flags[i] = v;
                    proof {
                        assert(ctx.rpl_flags@ =~= Seq::new(
                            old(ctx)@.rpl_flags.len(),
                            |j: int|
                                if j < i + 1 {
                                    old(ctx)@.registers[j]
                                } else {
                                    old(ctx)@.rpl_flags[j]
                                },
                        ));
                    }
                    i += 1;
                }
                proof {
                    assert(ctx.rpl_flags@ =~= Seq::new(
                        old(ctx)@.rpl_flags.len(),
                        |j: int|
                            if j <= x as int {
                                old(ctx)@.registers[j]
                            } else {
                                old(ctx)@.rpl_flags[j]
                            },
                    ));
                }
                Ok(true)
            },
            // Restore registers 0..=x from the flag bank.
            (0xF, _, 8, 5) => {
                if x as usize >= FLAG_COUNT {
                    return Err(VmError::MemoryOutOfBounds);
                }
                proof {
                    assert(Seq::new(
                        old(ctx)@.registers.len(),
                        |j: int|
                            if j < 0 {
                                old(ctx)@.rpl_flags[j]
                            } else {
                                old(ctx)@.registers[j]
                            },
                    ) =~= old(ctx)@.registers);
                }
                let mut i: usize = 0;
                while i <= x as usize
                    invariant
                        ctx.wf(),
                        x < FLAG_COUNT,
                        i <= x + 1,
                        ctx@ == (MState {
                            registers: Seq::new(
                                old(ctx)@.registers.len(),
                                |j: int|
                                    if j < i as int {
                                        old(ctx)@.rpl_flags[j]
                                    } else {
                                        old(ctx)@.registers[j]
                                    },
                            ),
                            ..old(ctx)@
                        }),
                    decreases x + 1 - i,
                {
                    let v = ctx.rpl_flags[i];
                    ctx.registers[i] = v;
                    proof {
                        assert(ctx.registers@ =~= Seq::new(
                            old(ctx)@.registers.len(),
                            |j: int|
                                if j < i + 1 {
                                    old(ctx)@.rpl_flags[j]
                                } else {
                                    old(ctx)@.registers[j]
                                },
                        ));
                    }
                    i += 1;
                }
                proof {
                    assert(ctx.registers@ =~= Seq::new(
                        old(ctx)@.registers.len(),
                        |j: int|
                            if j <= x as int {
                                old(ctx)@.rpl_flags[j]
                            } else {
                                old(ctx)@.registers[j]
                            },
                    ));
                }
                Ok(true)
            },
            _ => Ok(false),
        }
    }
}

} // verus!
